//! The Symbolic Ledger: facts that a parser derived, never a model.
//!
//! A fact can only be made from a named deterministic source. Structured tool output counts:
//! JSON, header blocks, tables, diffs and exit codes are read here, and output without
//! structure is reported as such.

use crate::error::Error;
use crate::ids::{
    all_hex, new_id, normalize_rel_path, now_rfc3339, relative_path, short_hash_of_text,
    short_hash_str,
};
use crate::json::{members_in_order, parsed_tree, trees_in_order, Json, Tree};
use crate::lines::{
    all_digits, begins, count_of, each_separator_parts_once, is_digit, line_list, lines_of,
    number_of, occurrences, pieces_hold_no_separator, read_digits, shed_back, shed_front, split,
    split_on, starts_with, strip_prefix, trim_end, trim_end_matches, trim_start_matches,
};
use crate::text::{
    ascii_lower_chars, blank, byte_count, bytes_of, chars_of, contains, contains_text, digits,
    first_at, first_at_is_first, is_blank, join, joined, lowered_ascii, push_int, push_nat, same,
    signed_digits, split_once, string_of, texts, trim, trim_back, trimmed,
};
use crate::tokens::TokenCounter;
use vstd::prelude::*;
use vstd::string::*;

verus! {

/// What a fact describes.
#[derive(Debug, Clone, Copy, PartialEq, Eq, Structural)]
pub enum FactKind {
    Function,
    Method,
    Class,
    Struct,
    Enum,
    Trait,
    Interface,
    Type,
    Constant,
    Module,
    Import,
    Export,
    ToolOutputField,
    ToolExitCode,
    HttpHeader,
    JsonField,
    CsvColumn,
    DiffHunk,
    RegexMatch,
}

impl FactKind {
    /// The stored name.
    pub open spec fn name(self) -> Seq<char> {
        match self {
            FactKind::Function => "function"@,
            FactKind::Method => "method"@,
            FactKind::Class => "class"@,
            FactKind::Struct => "struct"@,
            FactKind::Enum => "enum"@,
            FactKind::Trait => "trait"@,
            FactKind::Interface => "interface"@,
            FactKind::Type => "type"@,
            FactKind::Constant => "constant"@,
            FactKind::Module => "module"@,
            FactKind::Import => "import"@,
            FactKind::Export => "export"@,
            FactKind::ToolOutputField => "tool_output_field"@,
            FactKind::ToolExitCode => "tool_exit_code"@,
            FactKind::HttpHeader => "http_header"@,
            FactKind::JsonField => "json_field"@,
            FactKind::CsvColumn => "csv_column"@,
            FactKind::DiffHunk => "diff_hunk"@,
            FactKind::RegexMatch => "regex_match"@,
        }
    }

    /// The stored name.
    pub fn as_str(self) -> (r: &'static str)
        ensures
            r@ == self.name(),
    {
        match self {
            FactKind::Function => "function",
            FactKind::Method => "method",
            FactKind::Class => "class",
            FactKind::Struct => "struct",
            FactKind::Enum => "enum",
            FactKind::Trait => "trait",
            FactKind::Interface => "interface",
            FactKind::Type => "type",
            FactKind::Constant => "constant",
            FactKind::Module => "module",
            FactKind::Import => "import",
            FactKind::Export => "export",
            FactKind::ToolOutputField => "tool_output_field",
            FactKind::ToolExitCode => "tool_exit_code",
            FactKind::HttpHeader => "http_header",
            FactKind::JsonField => "json_field",
            FactKind::CsvColumn => "csv_column",
            FactKind::DiffHunk => "diff_hunk",
            FactKind::RegexMatch => "regex_match",
        }
    }

    /// Reads a stored name; any other text is invalid.
    pub fn parse(s: &str) -> (r: Result<Self, Error>)
        ensures
            match r {
                Ok(v) => v.name() == s@,
                Err(e) => {
                    &&& forall|v: FactKind| #[trigger] v.name() != s@
                    &&& e matches Error::Invalid(m) && m@ == "unknown fact kind: "@ + s@
                },
            },
    {
        if same(s, "function") {
            Ok(FactKind::Function)
        } else if same(s, "method") {
            Ok(FactKind::Method)
        } else if same(s, "class") {
            Ok(FactKind::Class)
        } else if same(s, "struct") {
            Ok(FactKind::Struct)
        } else if same(s, "enum") {
            Ok(FactKind::Enum)
        } else if same(s, "trait") {
            Ok(FactKind::Trait)
        } else if same(s, "interface") {
            Ok(FactKind::Interface)
        } else if same(s, "type") {
            Ok(FactKind::Type)
        } else if same(s, "constant") {
            Ok(FactKind::Constant)
        } else if same(s, "module") {
            Ok(FactKind::Module)
        } else if same(s, "import") {
            Ok(FactKind::Import)
        } else if same(s, "export") {
            Ok(FactKind::Export)
        } else if same(s, "tool_output_field") {
            Ok(FactKind::ToolOutputField)
        } else if same(s, "tool_exit_code") {
            Ok(FactKind::ToolExitCode)
        } else if same(s, "http_header") {
            Ok(FactKind::HttpHeader)
        } else if same(s, "json_field") {
            Ok(FactKind::JsonField)
        } else if same(s, "csv_column") {
            Ok(FactKind::CsvColumn)
        } else if same(s, "diff_hunk") {
            Ok(FactKind::DiffHunk)
        } else if same(s, "regex_match") {
            Ok(FactKind::RegexMatch)
        } else {
            assert forall|v: FactKind| #[trigger] v.name() != s@ by {
                match v {
                    FactKind::Function => {},
                    FactKind::Method => {},
                    FactKind::Class => {},
                    FactKind::Struct => {},
                    FactKind::Enum => {},
                    FactKind::Trait => {},
                    FactKind::Interface => {},
                    FactKind::Type => {},
                    FactKind::Constant => {},
                    FactKind::Module => {},
                    FactKind::Import => {},
                    FactKind::Export => {},
                    FactKind::ToolOutputField => {},
                    FactKind::ToolExitCode => {},
                    FactKind::HttpHeader => {},
                    FactKind::JsonField => {},
                    FactKind::CsvColumn => {},
                    FactKind::DiffHunk => {},
                    FactKind::RegexMatch => {},
                }
            }
            Err(Error::Invalid(String::from_str("unknown fact kind: ").concat(s)))
        }
    }

    /// The stored kind, or a type where the name is not known.
    pub fn from_stored(s: &str) -> (r: Self)
        ensures
            r.name() == s@ || (r == FactKind::Type && forall|v: FactKind| #[trigger]
                v.name() != s@),
    {
        match Self::parse(s) {
            Ok(k) => k,
            Err(_) => FactKind::Type,
        }
    }

    /// Whether the fact describes code.
    pub fn is_code(self) -> (r: bool)
        ensures
            r == !(self is ToolOutputField || self is ToolExitCode || self is HttpHeader
                || self is JsonField || self is CsvColumn || self is DiffHunk
                || self is RegexMatch),
    {
        !matches!(
            self,
            FactKind::ToolOutputField | FactKind::ToolExitCode | FactKind::HttpHeader
                | FactKind::JsonField | FactKind::CsvColumn | FactKind::DiffHunk
                | FactKind::RegexMatch
        )
    }
}

/// No two kinds share a stored name, so a stored one reads back as itself.
pub proof fn fact_kind_names_are_distinct(a: FactKind, b: FactKind)
    requires
        a.name() == b.name(),
    ensures
        a == b,
{
    reveal_strlit("function");
    reveal_strlit("method");
    reveal_strlit("class");
    reveal_strlit("struct");
    reveal_strlit("enum");
    reveal_strlit("trait");
    reveal_strlit("interface");
    reveal_strlit("type");
    reveal_strlit("constant");
    reveal_strlit("module");
    reveal_strlit("import");
    reveal_strlit("export");
    reveal_strlit("tool_output_field");
    reveal_strlit("tool_exit_code");
    reveal_strlit("http_header");
    reveal_strlit("json_field");
    reveal_strlit("csv_column");
    reveal_strlit("diff_hunk");
    reveal_strlit("regex_match");
    assert("function"@.len() == 8);
    assert("method"@.len() == 6);
    assert("class"@.len() == 5);
    assert("struct"@.len() == 6);
    assert("enum"@.len() == 4);
    assert("trait"@.len() == 5);
    assert("interface"@.len() == 9);
    assert("type"@.len() == 4);
    assert("constant"@.len() == 8);
    assert("module"@.len() == 6);
    assert("import"@.len() == 6);
    assert("export"@.len() == 6);
    assert("tool_output_field"@.len() == 17);
    assert("tool_exit_code"@.len() == 14);
    assert("http_header"@.len() == 11);
    assert("json_field"@.len() == 10);
    assert("csv_column"@.len() == 10);
    assert("diff_hunk"@.len() == 9);
    assert("regex_match"@.len() == 11);
    assert("function"@[0] == 'f');
    assert("constant"@[0] == 'c');
    assert("method"@[0] == 'm');
    assert("struct"@[0] == 's');
    assert("module"@[0] == 'm');
    assert("import"@[0] == 'i');
    assert("export"@[0] == 'e');
    assert("method"@[1] == 'e');
    assert("module"@[1] == 'o');
    assert("class"@[0] == 'c');
    assert("trait"@[0] == 't');
    assert("enum"@[0] == 'e');
    assert("type"@[0] == 't');
    assert("interface"@[0] == 'i');
    assert("diff_hunk"@[0] == 'd');
    assert("http_header"@[0] == 'h');
    assert("regex_match"@[0] == 'r');
    assert("json_field"@[0] == 'j');
    assert("csv_column"@[0] == 'c');
}
/// A kind's name is made of letters and underscores.
proof fn kind_names_hold_no_separator(kind: FactKind)
    ensures
        !kind.name().contains('\u{1}'),
{
    reveal_strlit("function");
    reveal_strlit("method");
    reveal_strlit("class");
    reveal_strlit("struct");
    reveal_strlit("enum");
    reveal_strlit("trait");
    reveal_strlit("interface");
    reveal_strlit("type");
    reveal_strlit("constant");
    reveal_strlit("module");
    reveal_strlit("import");
    reveal_strlit("export");
    reveal_strlit("tool_output_field");
    reveal_strlit("tool_exit_code");
    reveal_strlit("http_header");
    reveal_strlit("json_field");
    reveal_strlit("csv_column");
    reveal_strlit("diff_hunk");
    reveal_strlit("regex_match");
}

/// The deterministic sources that facts may come from.
#[derive(Debug, Clone, Copy, PartialEq, Eq, Structural)]
pub enum FactSource {
    /// A parse of a source file.
    TreeSitter,
    /// One of the parsers in [`ToolOutputParser`].
    ToolOutputParser,
    /// The name of a command.
    CommandName,
}

impl FactSource {
    /// The stored name.
    pub open spec fn name(self) -> Seq<char> {
        match self {
            FactSource::TreeSitter => "tree_sitter"@,
            FactSource::ToolOutputParser => "tool_output_parser"@,
            FactSource::CommandName => "command_name"@,
        }
    }

    /// The stored name.
    pub fn as_str(self) -> (r: &'static str)
        ensures
            r@ == self.name(),
    {
        match self {
            FactSource::TreeSitter => "tree_sitter",
            FactSource::ToolOutputParser => "tool_output_parser",
            FactSource::CommandName => "command_name",
        }
    }

    /// The stored source, or a command's name where it is neither of the others.
    pub fn from_stored(s: &str) -> (r: Self)
        ensures
            r == (if s@ == FactSource::TreeSitter.name() {
                FactSource::TreeSitter
            } else if s@ == FactSource::ToolOutputParser.name() {
                FactSource::ToolOutputParser
            } else {
                FactSource::CommandName
            }),
    {
        if same(s, "tree_sitter") {
            FactSource::TreeSitter
        } else if same(s, "tool_output_parser") {
            FactSource::ToolOutputParser
        } else {
            FactSource::CommandName
        }
    }
}

/// A row of the ledger.
#[derive(Debug)]
pub struct SymbolicFact {
    pub fact_id: String,
    pub kind: FactKind,
    pub qualified_name: String,
    pub file_path: Option<String>,
    pub line_start: Option<i64>,
    pub line_end: Option<i64>,
    pub signature: Option<String>,
    pub ast_hash: String,
    pub source: FactSource,
    pub project_id: Option<String>,
    pub parent_name: Option<String>,
    pub body: Option<String>,
    pub updated_at: String,
}

/// A fact as an extractor produces it.
#[derive(Debug)]
pub struct SymbolicWrite {
    pub kind: FactKind,
    pub qualified_name: String,
    pub file_path: Option<String>,
    pub line_start: Option<i64>,
    pub line_end: Option<i64>,
    pub signature: Option<String>,
    /// The exact text that the fact was derived from.
    pub body: Option<String>,
    pub parent_name: Option<String>,
}

/// A fact as a plain value.
pub struct Fact {
    pub kind: FactKind,
    pub name: Seq<char>,
    pub file: Option<Seq<char>>,
    pub line_start: Option<i64>,
    pub line_end: Option<i64>,
    pub signature: Option<Seq<char>>,
    pub body: Option<Seq<char>>,
    pub parent: Option<Seq<char>>,
}

/// The characters of an optional string.
pub open spec fn chars_in(s: Option<String>) -> Option<Seq<char>> {
    match s {
        Some(s) => Some(s@),
        None => None,
    }
}

/// A text that may be missing.
pub open spec fn or_nothing(s: Option<Seq<char>>) -> Seq<char> {
    match s {
        Some(s) => s,
        None => Seq::empty(),
    }
}

impl Fact {
    /// A fact of which only the kind and the name are known.
    pub open spec fn bare(kind: FactKind, name: Seq<char>) -> Fact {
        Fact {
            kind,
            name,
            file: None,
            line_start: None,
            line_end: None,
            signature: None,
            body: None,
            parent: None,
        }
    }

    /// What the hash of a fact is taken of: its identity and its text.
    pub open spec fn material(self) -> Seq<char> {
        self.kind.name().push('\u{1}') + (self.name.push('\u{1}') + (or_nothing(
            self.signature,
        ).push('\u{1}') + or_nothing(self.body)))
    }
}

impl SymbolicWrite {
    /// The fact.
    pub open spec fn fact(self) -> Fact {
        Fact {
            kind: self.kind,
            name: self.qualified_name@,
            file: chars_in(self.file_path),
            line_start: self.line_start,
            line_end: self.line_end,
            signature: chars_in(self.signature),
            body: chars_in(self.body),
            parent: chars_in(self.parent_name),
        }
    }

    pub fn new(kind: FactKind, qualified_name: &str) -> (r: Self)
        ensures
            r.fact() == Fact::bare(kind, qualified_name@),
    {
        SymbolicWrite {
            kind,
            qualified_name: qualified_name.to_owned(),
            file_path: None,
            line_start: None,
            line_end: None,
            signature: None,
            body: None,
            parent_name: None,
        }
    }

    /// In a file, by a path that is normalised.
    pub fn at(self, file: &str) -> (r: Self)
        ensures
            r.fact() == (Fact { file: Some(relative_path(file@)), ..self.fact() }),
    {
        SymbolicWrite { file_path: Some(normalize_rel_path(file)), ..self }
    }

    /// In a file, by a path as it is.
    pub fn at_path(self, rel_path: &str) -> (r: Self)
        ensures
            r.fact() == (Fact { file: Some(rel_path@), ..self.fact() }),
    {
        SymbolicWrite { file_path: Some(rel_path.to_owned()), ..self }
    }

    pub fn lines(self, start: i64, end: i64) -> (r: Self)
        ensures
            r.fact() == (Fact { line_start: Some(start), line_end: Some(end), ..self.fact() }),
    {
        SymbolicWrite { line_start: Some(start), line_end: Some(end), ..self }
    }

    pub fn signature(self, sig: &str) -> (r: Self)
        ensures
            r.fact() == (Fact { signature: Some(sig@), ..self.fact() }),
    {
        SymbolicWrite { signature: Some(sig.to_owned()), ..self }
    }

    pub fn body(self, body: &str) -> (r: Self)
        ensures
            r.fact() == (Fact { body: Some(body@), ..self.fact() }),
    {
        SymbolicWrite { body: Some(body.to_owned()), ..self }
    }

    pub fn in_parent(self, parent: &str) -> (r: Self)
        ensures
            r.fact() == (Fact { parent: Some(parent@), ..self.fact() }),
    {
        SymbolicWrite { parent_name: Some(parent.to_owned()), ..self }
    }

    /// The hash of the fact's identity and its text. Renaming a symbol changes it even where
    /// the text stays.
    pub fn ast_hash(&self) -> (r: String)
        ensures
            r@ == short_hash_of_text(self.fact().material()),
            r@.len() == 16,
            all_hex(r@),
    {
        let mut material = String::from_str(self.kind.as_str());
        material.push('\u{1}');
        material.append(self.qualified_name.as_str());
        material.push('\u{1}');
        match &self.signature {
            Some(s) => material.append(s.as_str()),
            None => {},
        }
        material.push('\u{1}');
        match &self.body {
            Some(s) => material.append(s.as_str()),
            None => {},
        }
        assert(material@ =~= self.fact().material());
        short_hash_str(material.as_str())
    }

    /// The row for the ledger, from a named source.
    pub fn into_fact(self, source: FactSource, project_id: Option<String>) -> (r: SymbolicFact)
        ensures
            r.holds(self.fact(), source, project_id),
    {
        let ast_hash = self.ast_hash();
        proof {
            reveal_strlit("sym");
            assert("sym"@.len() == 3);
        }
        SymbolicFact {
            fact_id: new_id("sym"),
            kind: self.kind,
            qualified_name: self.qualified_name,
            file_path: self.file_path,
            line_start: self.line_start,
            line_end: self.line_end,
            signature: self.signature,
            ast_hash,
            source,
            project_id,
            parent_name: self.parent_name,
            body: self.body,
            updated_at: now_rfc3339(),
        }
    }
}

/// Facts of the same hash material agree in all that a summary can depend on, as long as
/// their names and signatures hold no separator.
pub proof fn material_identifies_facts(a: Fact, b: Fact)
    requires
        a.material() == b.material(),
        !a.name.contains('\u{1}') && !b.name.contains('\u{1}'),
        !or_nothing(a.signature).contains('\u{1}'),
        !or_nothing(b.signature).contains('\u{1}'),
    ensures
        a.kind == b.kind,
        a.name == b.name,
        or_nothing(a.signature) == or_nothing(b.signature),
        or_nothing(a.body) == or_nothing(b.body),
{
    kind_names_hold_no_separator(a.kind);
    kind_names_hold_no_separator(b.kind);
    let sa = or_nothing(a.signature);
    let sb = or_nothing(b.signature);
    let ta = sa.push('\u{1}') + or_nothing(a.body);
    let tb = sb.push('\u{1}') + or_nothing(b.body);
    fields_come_apart(
        a.kind.name(),
        b.kind.name(),
        a.name.push('\u{1}') + ta,
        b.name.push('\u{1}') + tb,
    );
    fields_come_apart(a.name, b.name, ta, tb);
    fields_come_apart(sa, sb, or_nothing(a.body), or_nothing(b.body));
    fact_kind_names_are_distinct(a.kind, b.kind);
}

/// The first field of a text comes apart from the rest at the first separator.
proof fn fields_come_apart(a: Seq<char>, b: Seq<char>, ra: Seq<char>, rb: Seq<char>)
    requires
        a.push('\u{1}') + ra == b.push('\u{1}') + rb,
        !a.contains('\u{1}'),
        !b.contains('\u{1}'),
    ensures
        a == b,
        ra == rb,
{
    let x = a.push('\u{1}') + ra;
    let y = b.push('\u{1}') + rb;
    if a.len() < b.len() {
        assert(y[a.len() as int] == b[a.len() as int]);
        assert(x[a.len() as int] == '\u{1}');
        assert(b.contains('\u{1}'));
    } else if b.len() < a.len() {
        assert(x[b.len() as int] == a[b.len() as int]);
        assert(y[b.len() as int] == '\u{1}');
        assert(a.contains('\u{1}'));
    } else {
        assert forall|i: int| 0 <= i < a.len() implies a[i] == b[i] by {
            assert(x[i] == a[i]);
            assert(y[i] == b[i]);
        }
        assert(a =~= b);
        assert(x.len() == a.len() + 1 + ra.len());
        assert(y.len() == b.len() + 1 + rb.len());
        assert forall|i: int| 0 <= i < ra.len() implies ra[i] == rb[i] by {
            assert(x[a.len() + 1 + i] == ra[i]);
            assert(y[a.len() + 1 + i] == rb[i]);
        }
        assert(ra =~= rb);
    }
}

impl SymbolicFact {
    /// Whether the row holds this fact, from this source.
    pub open spec fn holds(self, fact: Fact, source: FactSource, project_id: Option<String>) -> bool {
        &&& self.fact_id@.len() == 36 && self.fact_id@.take(3) == "sym"@ && self.fact_id@[3] == '_'
        &&& self.kind == fact.kind
        &&& self.qualified_name@ == fact.name
        &&& chars_in(self.file_path) == fact.file
        &&& self.line_start == fact.line_start && self.line_end == fact.line_end
        &&& chars_in(self.signature) == fact.signature
        &&& self.ast_hash@ == short_hash_of_text(fact.material())
        &&& self.ast_hash@.len() == 16 && all_hex(self.ast_hash@)
        &&& self.source == source
        &&& self.project_id == project_id
        &&& chars_in(self.parent_name) == fact.parent
        &&& chars_in(self.body) == fact.body
        &&& self.updated_at@.len() >= 24 && self.updated_at@.last() == 'Z'
    }

    /// The only way to make a row: from a named deterministic source.
    pub fn from_deterministic_source(
        write: SymbolicWrite,
        source: FactSource,
        project_id: Option<String>,
    ) -> (r: Self)
        ensures
            r.holds(write.fact(), source, project_id),
    {
        write.into_fact(source, project_id)
    }

    /// Whether the content differs from that of another version of the symbol.
    pub fn differs_from(&self, other: &SymbolicFact) -> (r: bool)
        ensures
            r == (self.ast_hash@ != other.ast_hash@),
    {
        !same(self.ast_hash.as_str(), other.ast_hash.as_str())
    }

    /// The rendering for a prompt: the signature where there is one, else the name, and where
    /// it stands.
    pub open spec fn shown(self) -> Seq<char> {
        self.kind.name() + " "@ + (match self.signature {
            Some(s) => s@,
            None => self.qualified_name@,
        }) + (match (self.file_path, self.line_start) {
            (Some(f), Some(l)) => " ("@ + f@ + ":"@ + signed_digits(l as int) + ")"@,
            (Some(f), None) => " ("@ + f@ + ")"@,
            _ => ""@,
        })
    }

    /// The rendering for a prompt.
    pub fn render(&self) -> (r: String)
        ensures
            r@ == self.shown(),
    {
        let mut out = String::from_str(self.kind.as_str());
        out.append(" ");
        match &self.signature {
            Some(s) => out.append(s.as_str()),
            None => out.append(self.qualified_name.as_str()),
        }
        let place = match (&self.file_path, self.line_start) {
            (Some(f), Some(l)) => {
                let mut p = String::from_str(" (");
                p.append(f.as_str());
                p.append(":");
                push_int(&mut p, l);
                p.append(")");
                p
            },
            (Some(f), None) => {
                let mut p = String::from_str(" (");
                p.append(f.as_str());
                p.append(")");
                p
            },
            _ => String::from_str(""),
        };
        out.append(place.as_str());
        out
    }
}

/// Facts taken from one tool output.
#[derive(Debug)]
pub struct ToolOutputFacts {
    pub facts: Vec<SymbolicWrite>,
    /// What was found, in one line.
    pub summary: String,
    /// Which parser found it, where one did.
    pub parser: Option<&'static str>,
}

/// Facts taken from one tool output, as a plain value.
pub struct Extract {
    pub facts: Seq<Fact>,
    pub summary: Seq<char>,
    pub parser: Option<Seq<char>>,
}

/// The facts of a list.
pub open spec fn facts_of(list: Seq<SymbolicWrite>) -> Seq<Fact> {
    Seq::new(list.len(), |i: int| list[i].fact())
}

impl ToolOutputFacts {
    /// The facts and what is said of them.
    pub open spec fn extract(self) -> Extract {
        Extract {
            facts: facts_of(self.facts@),
            summary: self.summary@,
            parser: match self.parser {
                Some(p) => Some(p@),
                None => None,
            },
        }
    }

    pub fn is_empty(&self) -> (r: bool)
        ensures
            r == (self.extract().facts.len() == 0),
    {
        self.facts.len() == 0
    }

    pub fn len(&self) -> (r: usize)
        ensures
            r == self.extract().facts.len(),
    {
        self.facts.len()
    }

    /// The tokens of the texts of the first `n` facts.
    pub open spec fn body_tokens(facts: Seq<Fact>, counter: TokenCounter, n: nat) -> nat
        decreases n,
    {
        if n == 0 {
            0
        } else {
            Self::body_tokens(facts, counter, (n - 1) as nat) + (match facts[n - 1].body {
                Some(b) => counter.of(b),
                None => 0,
            })
        }
    }

    proof fn body_tokens_grow(facts: Seq<Fact>, counter: TokenCounter, n: nat, m: nat)
        requires
            n <= m,
        ensures
            Self::body_tokens(facts, counter, n) <= Self::body_tokens(facts, counter, m),
        decreases m,
    {
        if n < m {
            Self::body_tokens_grow(facts, counter, n, (m - 1) as nat);
        }
    }

    /// The tokens that the texts of all facts would cost.
    pub fn total_body_tokens(&self, counter: &TokenCounter) -> (r: usize)
        requires
            Self::body_tokens(self.extract().facts, *counter, self.extract().facts.len())
                <= usize::MAX,
        ensures
            r == Self::body_tokens(self.extract().facts, *counter, self.extract().facts.len()),
    {
        let mut sum: usize = 0;
        let ghost facts = facts_of(self.facts@);
        for i in 0..self.facts.len()
            invariant
                facts == facts_of(self.facts@),
                Self::body_tokens(facts, *counter, facts.len()) <= usize::MAX,
                sum == Self::body_tokens(facts, *counter, i as nat),
        {
            proof {
                Self::body_tokens_grow(facts, *counter, i as nat + 1, facts.len());
                assert(facts[i as int] == self.facts@[i as int].fact());
            }
            match &self.facts[i].body {
                Some(b) => {
                    sum = sum + counter.count(b.as_str()).get();
                },
                None => {},
            }
        }
        sum
    }
}

/// The parsers for structured output.
pub struct ToolOutputParser;

/// Adds a fact to a list.
fn add_fact(out: &mut Vec<SymbolicWrite>, write: SymbolicWrite)
    ensures
        facts_of(final(out)@) == facts_of(old(out)@).push(write.fact()),
{
    out.push(write);
    assert(facts_of(out@) =~= facts_of(old(out)@).push(write.fact()));
}

/// A result of `n` facts with a summary that counts them.
pub open spec fn counted(facts: Seq<Fact>, what: Seq<char>, parser: Seq<char>) -> Option<Extract> {
    if facts.len() == 0 {
        None
    } else {
        Some(Extract { facts, summary: digits(facts.len()) + what, parser: Some(parser) })
    }
}

/// Whether an optional result says what is wanted.
pub open spec fn says(r: Option<ToolOutputFacts>, wanted: Option<Extract>) -> bool {
    match wanted {
        Some(e) => r matches Some(f) && f.extract() == e,
        None => r is None,
    }
}

/// The number of facts and what they are.
fn count_summary(n: usize, what: &str) -> (r: String)
    ensures
        r@ == digits(n as nat) + what@,
{
    let mut out = String::new();
    push_nat(&mut out, n as u64);
    assert(out@ =~= digits(n as nat));
    out.append(what);
    out
}

/// The JSON type of a value.
pub open spec fn json_type(value: Tree) -> Seq<char> {
    match value {
        Tree::Null => "null"@,
        Tree::Bool(_) => "boolean"@,
        Tree::Number { signed, unsigned } => if signed is Some || unsigned is Some {
            "integer"@
        } else {
            "number"@
        },
        Tree::Text(_) => "string"@,
        Tree::List(_) => "array"@,
        Tree::Object(_) => "object"@,
    }
}

/// The fact for a value that holds no others.
pub open spec fn json_leaf_fact(path: Seq<char>, value: Tree) -> Fact {
    Fact {
        signature: Some(json_type(value)),
        body: Some(path + ": "@ + json_type(value)),
        ..Fact::bare(FactKind::JsonField, path)
    }
}

/// Whether a value holds others.
pub open spec fn holds_others(value: Tree) -> bool {
    value is List || value is Object
}

/// The path of a member.
pub open spec fn member_path(prefix: Seq<char>, key: Seq<char>) -> Seq<char> {
    if prefix.len() == 0 {
        key
    } else {
        prefix + "."@ + key
    }
}

/// The facts after those of a value have been added: one for each value without others in it,
/// by its path. An array is described by its first element; deep values and long lists are cut.
pub open spec fn flattened(value: Tree, prefix: Seq<char>, so_far: Seq<Fact>, depth: nat) -> Seq<Fact>
    decreases value,
{
    if depth > 6 || so_far.len() > 200 {
        so_far
    } else {
        match value {
            Tree::Object(members) => flattened_members(members, prefix, so_far, depth),
            Tree::List(items) => if items.len() == 0 {
                so_far
            } else if holds_others(items[0]) {
                flattened(items[0], prefix + "[]"@, so_far, depth + 1)
            } else {
                so_far.push(json_leaf_fact(prefix + "[]"@, items[0]))
            },
            _ => so_far.push(json_leaf_fact(prefix, value)),
        }
    }
}

/// The facts after those of an object's members have been added.
pub open spec fn flattened_members(
    members: Seq<(Seq<char>, Tree)>,
    prefix: Seq<char>,
    so_far: Seq<Fact>,
    depth: nat,
) -> Seq<Fact>
    decreases members,
{
    if members.len() == 0 {
        so_far
    } else {
        let before = flattened_members(members.drop_last(), prefix, so_far, depth);
        let last = members.last();
        let path = member_path(prefix, last.0);
        if holds_others(last.1) {
            proof {
                assert(decreases_to!(members => members[members.len() - 1]));
                assert(decreases_to!(members[members.len() - 1] => members[members.len() - 1].1));
            }
            flattened(last.1, path, before, depth + 1)
        } else {
            before.push(json_leaf_fact(path, last.1))
        }
    }
}

/// What a JSON document yields.
pub open spec fn json_extract(value: Tree) -> Option<Extract> {
    counted(flattened(value, Seq::empty(), Seq::empty(), 0), " JSON field paths"@, "json"@)
}

fn json_leaf(path: &str, value: &Json) -> (r: SymbolicWrite)
    ensures
        r.fact() == json_leaf_fact(path@, value.tree()),
{
    let name: &'static str = match value {
        Json::Null => "null",
        Json::Bool(_) => "boolean",
        Json::Number { signed, unsigned } => if signed.is_some() || unsigned.is_some() {
            "integer"
        } else {
            "number"
        },
        Json::Text(_) => "string",
        Json::List(_) => "array",
        Json::Object(_) => "object",
    };
    let mut body = String::from_str(path);
    body.append(": ");
    body.append(name);
    SymbolicWrite::new(FactKind::JsonField, path).signature(name).body(body.as_str())
}

fn nests(value: &Json) -> (r: bool)
    ensures
        r == holds_others(value.tree()),
{
    match value {
        Json::List(_) => true,
        Json::Object(_) => true,
        _ => false,
    }
}

fn flatten_json(value: &Json, prefix: &str, out: &mut Vec<SymbolicWrite>, depth: usize)
    ensures
        facts_of(final(out)@) == flattened(
            value.tree(),
            prefix@,
            facts_of(old(out)@),
            depth as nat,
        ),
    decreases *value,
{
    if depth > 6 || out.len() > 200 {
        return;
    }
    match value {
        Json::Object(members) => {
            let ghost list = crate::json::member_trees(members@);
            let ghost start = facts_of(out@);
            proof {
                members_in_order(members@);
                assert(list.take(0) =~= Seq::empty());
            }
            for i in 0..members.len()
                invariant
                    depth <= 6,
                    *value == Json::Object(*members),
                    list == crate::json::member_trees(members@),
                    list.len() == members@.len(),
                    forall|k: int|
                        0 <= k < members@.len() ==> #[trigger] list[k] == (
                            members@[k].0@,
                            members@[k].1.tree(),
                        ),
                    facts_of(out@) == flattened_members(
                        list.take(i as int),
                        prefix@,
                        start,
                        depth as nat,
                    ),
            {
                proof {
                    assert(list.take(i as int + 1).drop_last() =~= list.take(i as int));
                    assert(list.take(i as int + 1).last() == list[i as int]);
                    assert(decreases_to!(*value => value->Object_0));
                    assert(decreases_to!(value->Object_0 => value->Object_0@));
                    assert(decreases_to!(members@ => members@[i as int]));
                    assert(decreases_to!(members@[i as int] => members@[i as int].1));
                }
                let key = members[i].0.as_str();
                let path = if prefix.is_empty() {
                    key.to_owned()
                } else {
                    let mut p = String::from_str(prefix);
                    p.append(".");
                    p.append(key);
                    p
                };
                let inner = &members[i].1;
                if nests(inner) {
                    flatten_json(inner, path.as_str(), out, depth + 1);
                } else {
                    add_fact(out, json_leaf(path.as_str(), inner));
                }
            }
            assert(list.take(list.len() as int) =~= list);
        },
        Json::List(items) => {
            proof {
                trees_in_order(items@);
            }
            if items.len() > 0 {
                let path = String::from_str(prefix).concat("[]");
                let first = &items[0];
                proof {
                    assert(crate::json::trees(items@)[0] == items@[0].tree());
                    assert(decreases_to!(*value => items@));
                    assert(decreases_to!(items@ => items@[0]));
                }
                if nests(first) {
                    flatten_json(first, path.as_str(), out, depth + 1);
                } else {
                    add_fact(out, json_leaf(path.as_str(), first));
                }
            }
        },
        _ => {
            add_fact(out, json_leaf(prefix, value));
        },
    }
}

/// How reading a header block stands.
pub enum HeaderVerdict {
    /// The next line may belong to it.
    Going,
    /// It has ended.
    Ended,
    /// This is no header block.
    Refused,
}

/// How far a header block has been read.
pub struct HeaderState {
    pub facts: Seq<Fact>,
    pub status: Option<Seq<char>>,
    pub verdict: HeaderVerdict,
}

/// Whether a text can be the name of a header: not empty, at most 64 bytes, made of ASCII
/// letters, digits, hyphens and underscores.
pub open spec fn is_header_name(name: Seq<char>) -> bool {
    &&& name.len() > 0
    &&& bytes_of(name) <= 64
    &&& forall|i: int| 0 <= i < name.len() ==> is_header_char(#[trigger] name[i])
}

pub open spec fn is_header_char(c: char) -> bool {
    '0' <= c <= '9' || 'A' <= c <= 'Z' || 'a' <= c <= 'z' || c == '-' || c == '_'
}

/// The fact for one header.
pub open spec fn header_fact(name: Seq<char>, value: Seq<char>, status: Option<Seq<char>>) -> Fact {
    let line = name + ": "@ + trimmed(value);
    Fact {
        signature: Some(trimmed(value)),
        body: Some(
            match status {
                Some(s) => s + "\n"@ + line,
                None => line,
            },
        ),
        ..Fact::bare(FactKind::HttpHeader, lowered_ascii(name))
    }
}

impl HeaderState {
    /// Before the first line.
    pub open spec fn start() -> HeaderState {
        HeaderState { facts: Seq::empty(), status: None, verdict: HeaderVerdict::Going }
    }

    /// A line that is no header ends a block that has begun, and otherwise shows that there is
    /// none.
    pub open spec fn cut(self) -> HeaderState {
        HeaderState {
            verdict: if self.facts.len() == 0 {
                HeaderVerdict::Refused
            } else {
                HeaderVerdict::Ended
            },
            ..self
        }
    }

    /// After one more line. An empty line ends a block that has begun; a status line may
    /// precede the headers.
    pub open spec fn read(self, raw: Seq<char>) -> HeaderState {
        let line = trim_back(raw);
        if !(self.verdict is Going) {
            self
        } else if line.len() == 0 {
            if self.facts.len() == 0 {
                self
            } else {
                HeaderState { verdict: HeaderVerdict::Ended, ..self }
            }
        } else if self.status is None && begins(line, "HTTP/"@) {
            HeaderState { status: Some(line), ..self }
        } else {
            match first_at(line, ':') {
                None => self.cut(),
                Some(i) => if is_header_name(line.take(i)) {
                    HeaderState {
                        facts: self.facts.push(
                            header_fact(line.take(i), line.skip(i + 1), self.status),
                        ),
                        ..self
                    }
                } else {
                    self.cut()
                },
            }
        }
    }

    /// After the first `n` lines.
    pub open spec fn after(lines: Seq<Seq<char>>, n: nat) -> HeaderState
        decreases n,
    {
        if n == 0 {
            Self::start()
        } else {
            Self::after(lines, (n - 1) as nat).read(lines[n - 1])
        }
    }
}

/// How many lines are looked at for headers.
pub open spec fn header_lines(lines: Seq<Seq<char>>) -> nat {
    if lines.len() < 64 {
        lines.len()
    } else {
        64
    }
}

/// What a header block yields.
pub open spec fn header_extract(content: Seq<char>) -> Option<Extract> {
    let lines = line_list(content);
    let end = HeaderState::after(lines, header_lines(lines));
    if end.verdict is Refused || end.facts.len() == 0 {
        None
    } else {
        Some(
            Extract {
                facts: end.facts,
                summary: match end.status {
                    Some(s) => digits(end.facts.len()) + " HTTP headers"@ + (" from "@ + s),
                    None => digits(end.facts.len()) + " HTTP headers"@,
                },
                parser: Some("http_headers"@),
            },
        )
    }
}

/// The lines that hold more than white space, among the first `n`.
pub open spec fn filled_lines(lines: Seq<Seq<char>>, n: nat) -> Seq<Seq<char>>
    decreases n,
{
    if n == 0 {
        Seq::empty()
    } else {
        let before = filled_lines(lines, (n - 1) as nat);
        if is_blank(lines[n - 1]) {
            before
        } else {
            before.push(lines[n - 1])
        }
    }
}

/// The delimiter of a table, by its first line.
pub open spec fn delimiter(header: Seq<char>) -> char {
    if occurrences(header, '\t') > occurrences(header, ',') {
        '\t'
    } else {
        ','
    }
}

/// The names of the columns of a table, by its first line.
pub open spec fn columns(header: Seq<char>) -> Seq<Seq<char>> {
    let cells = split_on(header, delimiter(header));
    Seq::new(cells.len(), |i: int| trimmed(cells[i]))
}

/// Whether a text can be the name of a column.
pub open spec fn is_column_name(name: Seq<char>) -> bool {
    name.len() > 0 && !name.contains(' ')
}

/// The sample rows of a table: up to eight lines after the first.
pub open spec fn sample_rows(lines: Seq<Seq<char>>) -> Seq<Seq<char>> {
    if lines.len() <= 9 {
        lines.skip(1)
    } else {
        lines.subrange(1, 9)
    }
}

/// The fact for one column of a table.
pub open spec fn column_fact(name: Seq<char>, header: Seq<char>, rows: Seq<Seq<char>>) -> Fact {
    Fact {
        body: Some(header + "\n"@ + joined(rows, "\n"@)),
        ..Fact::bare(FactKind::CsvColumn, name)
    }
}

/// What a table yields.
pub open spec fn table_extract(content: Seq<char>) -> Option<Extract> {
    let lines = filled_lines(line_list(content), line_list(content).len());
    if lines.len() < 2 {
        None
    } else {
        let header = lines[0];
        let names = columns(header);
        let rows = sample_rows(lines);
        if occurrences(header, delimiter(header)) == 0 {
            None
        } else if exists|i: int| 0 <= i < names.len() && !is_column_name(#[trigger] names[i]) {
            None
        } else {
            Some(
                Extract {
                    facts: Seq::new(names.len(), |i: int| column_fact(names[i], header, rows)),
                    summary: digits(names.len()) + " CSV columns, "@ + digits(rows.len())
                        + " sample rows"@,
                    parser: Some("csv"@),
                },
            )
        }
    }
}

/// How far a diff has been read: the hunks, and the file that the next one belongs to.
pub struct DiffState {
    pub facts: Seq<Fact>,
    pub file: Option<Seq<char>>,
}

/// The fact for one hunk.
pub open spec fn hunk_fact(file: Seq<char>, line: Seq<char>) -> Fact {
    let header = trimmed(shed_back(line.skip(2), "@@"@));
    Fact {
        file: Some(file),
        signature: Some(header),
        body: Some(line),
        ..Fact::bare(FactKind::DiffHunk, file + "#"@ + header)
    }
}

impl DiffState {
    /// After one more line: a line of three plus signs names the file, a line of two at signs
    /// opens a hunk.
    pub open spec fn read(self, line: Seq<char>) -> DiffState {
        if begins(line, "+++ "@) {
            let path = trimmed(shed_front(line.skip(4), "b/"@));
            if path == "/dev/null"@ {
                self
            } else {
                DiffState { file: Some(path), ..self }
            }
        } else if begins(line, "@@"@) {
            DiffState {
                facts: self.facts.push(
                    hunk_fact(
                        match self.file {
                            Some(f) => f,
                            None => "<unknown>"@,
                        },
                        line,
                    ),
                ),
                ..self
            }
        } else {
            self
        }
    }

    /// After the first `n` lines.
    pub open spec fn after(lines: Seq<Seq<char>>, n: nat) -> DiffState
        decreases n,
    {
        if n == 0 {
            DiffState { facts: Seq::empty(), file: None }
        } else {
            Self::after(lines, (n - 1) as nat).read(lines[n - 1])
        }
    }
}

/// What a diff yields.
pub open spec fn diff_extract(content: Seq<char>) -> Option<Extract> {
    if !contains_text(content, "@@"@) && !contains_text(content, "+++ "@) {
        None
    } else {
        let lines = line_list(content);
        counted(DiffState::after(lines, lines.len()).facts, " diff hunks"@, "diff"@)
    }
}

/// The digits that `s` begins with.
pub open spec fn leading_digits(s: Seq<char>) -> Seq<char>
    decreases s.len(),
{
    if s.len() > 0 && is_digit(s[0]) {
        seq![s[0]] + leading_digits(s.drop_first())
    } else {
        Seq::empty()
    }
}

/// The first run of digits in `s`.
pub open spec fn digit_run(s: Seq<char>) -> Seq<char>
    decreases s.len(),
{
    if s.len() == 0 || is_digit(s[0]) {
        leading_digits(s)
    } else {
        digit_run(s.drop_first())
    }
}

/// What an exit code yields: a short text with a number in it that speaks of an exit or a
/// status.
pub open spec fn exit_extract(content: Seq<char>) -> Option<Extract> {
    let lower = lowered_ascii(trimmed(content));
    let run = digit_run(lower);
    if bytes_of(lower) > 64 || run.len() == 0 || number_of(run) > i64::MAX || !(contains_text(
        lower,
        "exit"@,
    ) || contains_text(lower, "status"@)) {
        None
    } else {
        let code = digits(number_of(run));
        Some(
            Extract {
                facts: seq![
                    Fact {
                        signature: Some(code),
                        body: Some(trimmed(content)),
                        ..Fact::bare(FactKind::ToolExitCode, "exit_code"@)
                    },
                ],
                summary: "process exited with status "@ + code,
                parser: Some("exit_code"@),
            },
        )
    }
}

/// What a text yields as a JSON document: nothing unless it begins as an object or an array.
pub open spec fn json_text_extract(content: Seq<char>) -> Option<Extract> {
    let text = trimmed(content);
    if text.len() > 0 && (text[0] == '{' || text[0] == '[') {
        match parsed_tree(text) {
            Some(value) => json_extract(value),
            None => None,
        }
    } else {
        None
    }
}

/// Whether a tool's name says that its output is a diff.
pub open spec fn is_diff_tool(tool_name: Option<Seq<char>>) -> bool {
    tool_name matches Some(n) && (contains_text(lowered_ascii(n), "diff"@) || contains_text(
        lowered_ascii(n),
        "patch"@,
    ))
}

/// The first of two results, where there is one.
pub open spec fn or_else(a: Option<Extract>, b: Option<Extract>) -> Option<Extract> {
    match a {
        Some(e) => Some(e),
        None => b,
    }
}

/// What any parser finds, the most specific first; nothing at all is reported as such.
pub open spec fn any_extract(tool_name: Option<Seq<char>>, content: Seq<char>, json: Option<
    Extract,
>) -> Extract {
    let found = or_else(
        if is_diff_tool(tool_name) {
            diff_extract(content)
        } else {
            None
        },
        or_else(
            json,
            or_else(
                header_extract(content),
                or_else(
                    table_extract(content),
                    or_else(diff_extract(content), exit_extract(content)),
                ),
            ),
        ),
    );
    match found {
        Some(e) => e,
        None => Extract {
            facts: Seq::empty(),
            summary: "no structure detected; retained as raw episodic text only"@,
            parser: None,
        },
    }
}

/// Whether the name of a header is proper.
fn header_name_ok(name: &str) -> (r: bool)
    ensures
        r == is_header_name(name@),
{
    let cs = chars_of(name);
    if cs.len() == 0 || byte_count(name) > 64 {
        return false;
    }
    for i in 0..cs.len()
        invariant
            cs@ == name@,
            forall|k: int| 0 <= k < i ==> is_header_char(#[trigger] name@[k]),
    {
        let c: char = cs[i];
        if !(('0' <= c && c <= '9') || ('A' <= c && c <= 'Z') || ('a' <= c && c <= 'z') || c == '-'
            || c == '_') {
            assert(!is_header_char(name@[i as int]));
            return false;
        }
    }
    true
}

/// A text with its ASCII letters in lower case.
fn lower(s: &str) -> (r: String)
    ensures
        r@ == lowered_ascii(s@),
{
    let cs = ascii_lower_chars(s);
    let out = string_of(cs.as_slice(), 0, cs.len());
    assert(out@ =~= lowered_ascii(s@));
    out
}

/// The fact for one header.
fn header_write(name: &str, value: &str, status: &Option<String>) -> (r: SymbolicWrite)
    ensures
        r.fact() == header_fact(name@, value@, chars_in(*status)),
{
    let value = trim(value);
    let mut line = String::from_str(name);
    line.append(": ");
    line.append(value.as_str());
    let body = match status {
        Some(s) => {
            let mut b = String::from_str(s.as_str());
            b.append("\n");
            b.append(line.as_str());
            b
        },
        None => line,
    };
    let key = lower(name);
    SymbolicWrite::new(FactKind::HttpHeader, key.as_str()).signature(value.as_str()).body(
        body.as_str(),
    )
}

/// The first run of digits.
fn digit_run_of(cs: &Vec<char>) -> (r: Vec<char>)
    ensures
        r@ == digit_run(cs@),
        all_digits(r@),
{
    let n: usize = cs.len();
    let mut a: usize = 0;
    assert(cs@.skip(0) =~= cs@);
    while a < n && !('0' <= cs[a] && cs[a] <= '9')
        invariant
            n == cs@.len(),
            a <= n,
            digit_run(cs@) == digit_run(cs@.skip(a as int)),
        decreases n - a,
    {
        assert(cs@.skip(a as int).drop_first() =~= cs@.skip(a as int + 1));
        a = a + 1;
    }
    assert(digit_run(cs@.skip(a as int)) == leading_digits(cs@.skip(a as int)));
    let mut out: Vec<char> = Vec::new();
    let mut b: usize = a;
    assert(out@ + leading_digits(cs@.skip(b as int)) =~= leading_digits(cs@.skip(a as int)));
    while b < n && '0' <= cs[b] && cs[b] <= '9'
        invariant
            n == cs@.len(),
            a <= b <= n,
            all_digits(out@),
            leading_digits(cs@.skip(a as int)) == out@ + leading_digits(cs@.skip(b as int)),
        decreases n - b,
    {
        let ghost before = out@;
        proof {
            assert(cs@.skip(b as int).drop_first() =~= cs@.skip(b as int + 1));
            assert(leading_digits(cs@.skip(a as int)) =~= out@.push(cs@[b as int])
                + leading_digits(cs@.skip(b as int + 1)));
        }
        out.push(cs[b]);
        b = b + 1;
    }
    assert(leading_digits(cs@.skip(b as int)) =~= Seq::empty());
    assert(out@ =~= leading_digits(cs@.skip(a as int)));
    out
}

impl ToolOutputParser {
    /// What a JSON document yields: one fact for each leaf, by its path.
    pub fn facts_of_json(value: &Json) -> (r: Option<ToolOutputFacts>)
        ensures
            says(r, json_extract(value.tree())),
    {
        let mut facts: Vec<SymbolicWrite> = Vec::new();
        assert(facts_of(facts@) =~= Seq::empty());
        flatten_json(value, "", &mut facts, 0);
        proof {
            reveal_strlit("");
            assert(""@ =~= Seq::<char>::empty());
        }
        if facts.len() == 0 {
            return None;
        }
        let summary = count_summary(facts.len(), " JSON field paths");
        Some(ToolOutputFacts { facts, summary, parser: Some("json") })
    }

    /// Reads a JSON document.
    pub fn parse_json(content: &str) -> (r: Option<ToolOutputFacts>)
        ensures
            says(r, json_text_extract(content@)),
    {
        let text = trim(content);
        let cs = chars_of(text.as_str());
        if cs.len() == 0 || !(cs[0] == '{' || cs[0] == '[') {
            return None;
        }
        match Json::parse(text.as_str()) {
            Some(value) => Self::facts_of_json(&value),
            None => None,
        }
    }

    /// Reads a block of headers, as printed before a reply.
    pub fn parse_http_headers(content: &str) -> (r: Option<ToolOutputFacts>)
        ensures
            says(r, header_extract(content@)),
    {
        let lines = lines_of(content);
        let ghost all = texts(lines@);
        let count: usize = if lines.len() < 64 {
            lines.len()
        } else {
            64
        };
        let mut facts: Vec<SymbolicWrite> = Vec::new();
        let mut status: Option<String> = None;
        let mut ended: bool = false;
        let mut refused: bool = false;
        assert(facts_of(facts@) =~= Seq::empty());
        for i in 0..count
            invariant
                all == texts(lines@),
                count <= lines@.len(),
                ({
                    let state = HeaderState::after(all, i as nat);
                    &&& state.facts == facts_of(facts@)
                    &&& state.status == chars_in(status)
                    &&& ended == (state.verdict is Ended)
                    &&& refused == (state.verdict is Refused)
                }),
        {
            let ghost before = HeaderState::after(all, i as nat);
            assert(HeaderState::after(all, i as nat + 1) == before.read(all[i as int]));
            if !ended && !refused {
                let line = trim_end(lines[i].as_str());
                if line.as_str().is_empty() {
                    if facts.len() > 0 {
                        ended = true;
                    }
                } else if status.is_none() && starts_with(line.as_str(), "HTTP/") {
                    status = Some(line);
                } else {
                    proof {
                        crate::text::first_at_is_first(line@, ':');
                    }
                    let ok: bool = match split_once(line.as_str(), ':') {
                        Some((name, value)) => if header_name_ok(name.as_str()) {
                            add_fact(
                                &mut facts,
                                header_write(name.as_str(), value.as_str(), &status),
                            );
                            true
                        } else {
                            false
                        },
                        None => false,
                    };
                    if !ok {
                        if facts.len() == 0 {
                            refused = true;
                        } else {
                            ended = true;
                        }
                    }
                }
            }
        }
        if refused || facts.len() == 0 {
            return None;
        }
        let mut summary = count_summary(facts.len(), " HTTP headers");
        match &status {
            Some(s) => {
                let from = String::from_str(" from ").concat(s.as_str());
                summary.append(from.as_str());
            },
            None => {},
        }
        Some(ToolOutputFacts { facts, summary, parser: Some("http_headers") })
    }

    /// Reads a table with a header row, separated by commas or tabs.
    pub fn parse_csv(content: &str) -> (r: Option<ToolOutputFacts>)
        ensures
            says(r, table_extract(content@)),
    {
        let raw = lines_of(content);
        let ghost raw_texts = texts(raw@);
        let mut lines: Vec<String> = Vec::new();
        assert(texts(lines@) =~= Seq::empty());
        for i in 0..raw.len()
            invariant
                raw_texts == texts(raw@),
                texts(lines@) == filled_lines(raw_texts, i as nat),
        {
            let ghost before = texts(lines@);
            if !blank(raw[i].as_str()) {
                let line = raw[i].clone();
                lines.push(line);
                assert(texts(lines@) =~= before.push(line@));
            }
        }
        let ghost all = texts(lines@);
        assert(all == filled_lines(line_list(content@), line_list(content@).len()));
        let n: usize = lines.len();
        if n < 2 {
            // A lone header is refused whether or not it would do as one.
            return None;
        }
        let header = lines[0].as_str();
        assert(header@ == all[0]);
        let tabs: usize = count_of(header, '\t');
        let commas: usize = count_of(header, ',');
        let sep: char = if tabs > commas {
            '\t'
        } else {
            ','
        };
        assert(sep == delimiter(all[0]));
        if count_of(header, sep) == 0 {
            return None;
        }
        let cells = split(header, sep);
        let ghost cell_texts = texts(cells@);
        let ghost wanted = columns(all[0]);
        let mut names: Vec<String> = Vec::new();
        for i in 0..cells.len()
            invariant
                cell_texts == texts(cells@),
                wanted == columns(all[0]),
                cell_texts == split_on(all[0], delimiter(all[0])),
                names@.len() == i,
                forall|k: int| 0 <= k < i ==> (#[trigger] names@[k])@ == wanted[k],
                forall|k: int| 0 <= k < i ==> is_column_name(#[trigger] wanted[k]),
                table_extract(content@) is Some ==> forall|k: int|
                    0 <= k < wanted.len() ==> is_column_name(#[trigger] wanted[k]),
                n == all.len(),
                n >= 2,
                all == filled_lines(line_list(content@), line_list(content@).len()),
        {
            let name = trim(cells[i].as_str());
            assert(cell_texts[i as int] == cells@[i as int]@);
            assert(name@ == wanted[i as int]);
            let cs = chars_of(name.as_str());
            let spaces: usize = count_of(name.as_str(), ' ');
            proof {
                occurrences_tell(name@, ' ');
            }
            if cs.len() == 0 || spaces > 0 {
                assert(!is_column_name(wanted[i as int]));
                return None;
            }
            names.push(name);
        }
        let last: usize = if n <= 9 {
            n
        } else {
            9
        };
        let mut rows: Vec<String> = Vec::new();
        let ghost sample = sample_rows(all);
        for i in 1..last
            invariant
                all == texts(lines@),
                n == all.len(),
                2 <= n,
                last == (if n <= 9 {
                    n as int
                } else {
                    9
                }),
                sample == sample_rows(all),
                texts(rows@) == sample.take(i - 1),
        {
            let ghost before = texts(rows@);
            let row = lines[i].clone();
            assert(row@ == all[i as int]);
            rows.push(row);
            assert(texts(rows@) =~= before.push(row@));
            assert(texts(rows@) =~= sample.take(i as int));
        }
        assert(texts(rows@) =~= sample);
        let rest = join(&rows, "\n");
        let mut body = String::from_str(header);
        body.append("\n");
        body.append(rest.as_str());
        let mut facts: Vec<SymbolicWrite> = Vec::new();
        for i in 0..names.len()
            invariant
                wanted.len() == names@.len(),
                forall|k: int| 0 <= k < names@.len() ==> (#[trigger] names@[k])@ == wanted[k],
                body@ == all[0] + "\n"@ + joined(sample, "\n"@),
                facts_of(facts@) == Seq::new(
                    i as nat,
                    |k: int| column_fact(wanted[k], all[0], sample),
                ),
        {
            let ghost before = facts_of(facts@);
            add_fact(
                &mut facts,
                SymbolicWrite::new(FactKind::CsvColumn, names[i].as_str()).body(body.as_str()),
            );
            assert(names@[i as int]@ == wanted[i as int]);
            assert(facts_of(facts@) =~= Seq::new(
                i as nat + 1,
                |k: int| column_fact(wanted[k], all[0], sample),
            ));
        }
        let mut summary = count_summary(facts.len(), " CSV columns, ");
        push_nat(&mut summary, rows.len() as u64);
        summary.append(" sample rows");
        Some(ToolOutputFacts { facts, summary, parser: Some("csv") })
    }

    /// Reads a unified diff: one fact for each hunk.
    pub fn parse_diff(content: &str) -> (r: Option<ToolOutputFacts>)
        ensures
            says(r, diff_extract(content@)),
    {
        if !contains(content, "@@") && !contains(content, "+++ ") {
            return None;
        }
        proof {
            reveal_strlit("@@");
            reveal_strlit("+++ ");
            assert("@@"@.len() == 2);
            assert("+++ "@.len() == 4);
        }
        let lines = lines_of(content);
        let ghost all = texts(lines@);
        let mut facts: Vec<SymbolicWrite> = Vec::new();
        let mut file: Option<String> = None;
        assert(facts_of(facts@) =~= Seq::empty());
        for i in 0..lines.len()
            invariant
                all == texts(lines@),
                "@@"@.len() == 2,
                "+++ "@.len() == 4,
                DiffState::after(all, i as nat).facts == facts_of(facts@),
                DiffState::after(all, i as nat).file == chars_in(file),
        {
            let line = lines[i].as_str();
            assert(line@ == all[i as int]);
            assert(DiffState::after(all, i as nat + 1) == DiffState::after(all, i as nat).read(
                line@,
            ));
            match strip_prefix(line, "+++ ") {
                Some(rest) => {
                    let path = trim(trim_start_matches(rest.as_str(), "b/").as_str());
                    if !same(path.as_str(), "/dev/null") {
                        file = Some(path);
                    }
                },
                None => match strip_prefix(line, "@@") {
                    Some(rest) => {
                        let header = trim(trim_end_matches(rest.as_str(), "@@").as_str());
                        let name: &str = match &file {
                            Some(f) => f.as_str(),
                            None => "<unknown>",
                        };
                        let mut full = String::from_str(name);
                        full.append("#");
                        full.append(header.as_str());
                        add_fact(
                            &mut facts,
                            SymbolicWrite::new(FactKind::DiffHunk, full.as_str()).at_path(
                                name,
                            ).signature(header.as_str()).body(line),
                        );
                    },
                    None => {},
                },
            }
        }
        if facts.len() == 0 {
            return None;
        }
        let summary = count_summary(facts.len(), " diff hunks");
        Some(ToolOutputFacts { facts, summary, parser: Some("diff") })
    }

    /// Reads a bare exit code, such as `exit code: 1`.
    pub fn parse_exit_code(content: &str) -> (r: Option<ToolOutputFacts>)
        ensures
            says(r, exit_extract(content@)),
    {
        let body = trim(content);
        let text = lower(body.as_str());
        if byte_count(text.as_str()) > 64 {
            return None;
        }
        let cs = chars_of(text.as_str());
        let run = digit_run_of(&cs);
        if run.len() == 0 || !(contains(text.as_str(), "exit") || contains(
            text.as_str(),
            "status",
        )) {
            return None;
        }
        let code: u64 = match read_digits(&run, 0x7fff_ffff_ffff_ffff) {
            Some(n) => n,
            None => {
                return None;
            },
        };
        let shown = count_summary_of(code);
        let summary = String::from_str("process exited with status ").concat(shown.as_str());
        let mut facts: Vec<SymbolicWrite> = Vec::new();
        assert(facts_of(facts@) =~= Seq::empty());
        add_fact(
            &mut facts,
            SymbolicWrite::new(FactKind::ToolExitCode, "exit_code").signature(
                shown.as_str(),
            ).body(body.as_str()),
        );
        assert(facts_of(facts@) =~= exit_extract(content@)->0.facts);
        Some(ToolOutputFacts { facts, summary, parser: Some("exit_code") })
    }

    /// Reads an output with whichever parser recognises it.
    pub fn parse_any(tool_name: Option<&str>, content: &str) -> (r: ToolOutputFacts)
        ensures
            r.extract() == any_extract(
                match tool_name {
                    Some(n) => Some(n@),
                    None => None,
                },
                content@,
                json_text_extract(content@),
            ),
    {
        match tool_name {
            Some(name) => {
                let n = lower(name);
                if contains(n.as_str(), "diff") || contains(n.as_str(), "patch") {
                    match Self::parse_diff(content) {
                        Some(f) => {
                            return f;
                        },
                        None => {},
                    }
                }
            },
            None => {},
        }
        let json = Self::parse_json(content);
        Self::parse_any_after_json(content, json, Ghost(json_text_extract(content@)))
    }

    /// The rest of the parsers, once the output has been tried as JSON.
    fn parse_any_after_json(content: &str, json: Option<ToolOutputFacts>, Ghost(found): Ghost<
        Option<Extract>,
    >) -> (r: ToolOutputFacts)
        requires
            says(json, found),
        ensures
            r.extract() == any_extract(None, content@, found),
    {
        match json {
            Some(f) => {
                return f;
            },
            None => {},
        }
        match Self::parse_http_headers(content) {
            Some(f) => {
                return f;
            },
            None => {},
        }
        match Self::parse_csv(content) {
            Some(f) => {
                return f;
            },
            None => {},
        }
        match Self::parse_diff(content) {
            Some(f) => {
                return f;
            },
            None => {},
        }
        match Self::parse_exit_code(content) {
            Some(f) => {
                return f;
            },
            None => {},
        }
        let facts: Vec<SymbolicWrite> = Vec::new();
        assert(facts_of(facts@) =~= Seq::empty());
        ToolOutputFacts {
            facts,
            summary: "no structure detected; retained as raw episodic text only".to_owned(),
            parser: None,
        }
    }
}

/// The decimal rendering of a number.
fn count_summary_of(n: u64) -> (r: String)
    ensures
        r@ == digits(n as nat),
{
    let mut out = String::new();
    push_nat(&mut out, n);
    assert(out@ =~= digits(n as nat));
    out
}

/// A character occurs in a text exactly when it is counted at least once.
proof fn occurrences_tell(s: Seq<char>, c: char)
    ensures
        s.contains(c) <==> occurrences(s, c) > 0,
    decreases s.len(),
{
    if s.len() > 0 {
        occurrences_tell(s.drop_last(), c);
        if s.contains(c) && s.last() != c {
            let k = choose|k: int| 0 <= k < s.len() && s[k] == c;
            assert(s.drop_last()[k] == c);
        }
        if s.drop_last().contains(c) {
            let k = choose|k: int| 0 <= k < s.drop_last().len() && s.drop_last()[k] == c;
            assert(s[k] == c);
        }
        if s.last() == c {
            assert(s[s.len() - 1] == c);
        }
    }
}

/// The path that a line of three plus signs names, without the letter for the new side.
pub open spec fn named_path(line: Seq<char>) -> Seq<char> {
    trimmed(shed_front(line.skip(4), "b/"@))
}

/// Whether a line of a diff names the file that follows, which a deleted file does not have.
pub open spec fn names_a_file(line: Seq<char>) -> bool {
    begins(line, "+++ "@) && named_path(line) != "/dev/null"@
}

/// Whether the file of the line at `j` of a diff is the one that the line at `i` names: no line
/// between them names another.
pub open spec fn names_the_file_of(lines: Seq<Seq<char>>, i: int, j: int) -> bool {
    &&& 0 <= i < j
    &&& names_a_file(lines[i])
    &&& forall|m: int| i < m < j ==> !names_a_file(#[trigger] lines[m])
}

/// Whether no line before the one at `j` of a diff names a file.
pub open spec fn no_file_before(lines: Seq<Seq<char>>, j: int) -> bool {
    forall|i: int| 0 <= i < j ==> !names_a_file(#[trigger] lines[i])
}

/// Whether fact `k` of the first `n` lines is that of the hunk that line `j` opens.
spec fn opens_hunk_at(lines: Seq<Seq<char>>, n: nat, k: int, j: int) -> bool {
    let f = DiffState::after(lines, n).facts[k];
    &&& 0 <= j < n
    &&& begins(lines[j], "@@"@)
    &&& f.body == Some(lines[j])
    &&& f.signature == Some(trimmed(shed_back(lines[j].skip(2), "@@"@)))
    &&& f.kind is DiffHunk
}

/// Whether a fact is placed in a file.
spec fn is_in_file(f: Fact, path: Seq<char>) -> bool {
    f.file == Some(path) && f.name == path + "#"@ + f.signature->0
}

proof fn diff_state_follows_the_lines(lines: Seq<Seq<char>>, n: nat) -> (at: Seq<int>)
    requires
        n <= lines.len(),
    ensures
        at.len() == DiffState::after(lines, n).facts.len(),
        forall|k: int| 0 <= k < at.len() ==> opens_hunk_at(lines, n, k, #[trigger] at[k]),
        forall|j: int, k: int|
            #![trigger at[j], at[k]]
            0 <= j < k < at.len() ==> at[j] < at[k],
        forall|j: int| 0 <= j < n && begins(#[trigger] lines[j], "@@"@) ==> at.contains(j),
        match DiffState::after(lines, n).file {
            Some(f) => exists|i: int|
                #[trigger] names_the_file_of(lines, i, n as int) && f == named_path(lines[i]),
            None => no_file_before(lines, n as int),
        },
        forall|k: int, i: int|
            0 <= k < at.len() && #[trigger] names_the_file_of(lines, i, #[trigger] at[k])
                ==> is_in_file(DiffState::after(lines, n).facts[k], named_path(lines[i])),
        forall|k: int|
            0 <= k < at.len() && no_file_before(lines, #[trigger] at[k]) ==> is_in_file(
                DiffState::after(lines, n).facts[k],
                "<unknown>"@,
            ),
    decreases n,
{
    if n == 0 {
        Seq::empty()
    } else {
        let before = diff_state_follows_the_lines(lines, (n - 1) as nat);
        let old = DiffState::after(lines, (n - 1) as nat);
        let new = DiffState::after(lines, n);
        let line = lines[n - 1];
        reveal_strlit("+++ ");
        reveal_strlit("@@");
        assert(begins(line, "+++ "@) ==> !begins(line, "@@"@)) by {
            if begins(line, "+++ "@) && begins(line, "@@"@) {
                assert(line.subrange(0, 4)[0] == line[0]);
                assert(line.subrange(0, 2)[0] == line[0]);
            }
        }
        let hunk = begins(line, "@@"@);
        let at = if hunk {
            before.push(n - 1)
        } else {
            before
        };
        assert forall|j: int| 0 <= j < n && begins(#[trigger] lines[j], "@@"@) implies at.contains(
            j,
        ) by {
            if j == n - 1 {
                assert(at[at.len() - 1] == j);
            } else {
                let k = choose|k: int| 0 <= k < before.len() && before[k] == j;
                assert(at[k] == j);
            }
        }
        assert forall|k: int| 0 <= k < at.len() implies opens_hunk_at(
            lines,
            n,
            k,
            #[trigger] at[k],
        ) by {
            if k < before.len() {
                assert(at[k] == before[k]);
                assert(opens_hunk_at(lines, (n - 1) as nat, k, before[k]));
                assert(new.facts[k] == old.facts[k]);
            }
        }
        assert forall|j: int, k: int|
            #![trigger at[j], at[k]]
            0 <= j < k < at.len() implies at[j] < at[k] by {
            assert(at[j] == before[j]);
            if k < before.len() {
                assert(at[k] == before[k]);
            }
        }
        match new.file {
            Some(f) => {
                if names_a_file(line) {
                    assert(names_the_file_of(lines, n - 1, n as int));
                } else {
                    let i = choose|i: int|
                        #[trigger] names_the_file_of(lines, i, n - 1) && f == named_path(lines[i]);
                    assert(names_the_file_of(lines, i, n as int));
                }
            },
            None => {},
        }
        assert forall|k: int, i: int|
            0 <= k < at.len() && #[trigger] names_the_file_of(lines, i, #[trigger] at[k]) implies
            is_in_file(new.facts[k], named_path(lines[i])) by {
            if k < before.len() {
                assert(at[k] == before[k]);
                assert(new.facts[k] == old.facts[k]);
            } else {
                let f = old.file->0;
                assert(names_a_file(lines[i]));
                let m = choose|m: int|
                    #[trigger] names_the_file_of(lines, m, n - 1) && f == named_path(lines[m]);
                if m < i {
                    assert(!names_a_file(lines[i]));
                } else if i < m {
                    assert(!names_a_file(lines[m]));
                }
            }
        }
        assert forall|k: int|
            0 <= k < at.len() && no_file_before(lines, #[trigger] at[k]) implies
            is_in_file(new.facts[k], "<unknown>"@) by {
            if k < before.len() {
                assert(at[k] == before[k]);
                assert(new.facts[k] == old.facts[k]);
            } else if old.file is Some {
                let m = choose|m: int|
                    #[trigger] names_the_file_of(lines, m, n - 1) && old.file->0 == named_path(
                        lines[m],
                    );
                assert(!names_a_file(lines[m]));
            }
        }
        at
    }
}

/// A diff yields one fact for each line that opens a hunk, in order, and nothing where there is
/// none. `at` tells which line each fact comes from. The fact names the file of the last line
/// before it that names one, and where no line does the file is unknown.
pub proof fn each_hunk_belongs_to_the_file_named_last(
    content: &str,
    r: Option<ToolOutputFacts>,
) -> (at: Seq<int>)
    requires
        call_ensures(ToolOutputParser::parse_diff, (content,), r),
    ensures
        r is Some <==> exists|j: int|
            0 <= j < line_list(content@).len() && begins(#[trigger] line_list(content@)[j], "@@"@),
        r matches Some(found) ==> {
            let lines = line_list(content@);
            &&& at.len() == found.facts@.len()
            &&& forall|k: int|
                0 <= k < at.len() ==> {
                    let f = #[trigger] found.facts@[k];
                    let j = at[k];
                    &&& 0 <= j < lines.len()
                    &&& begins(lines[j], "@@"@)
                    &&& f.kind is DiffHunk
                    &&& f.body matches Some(b) && b@ == lines[j]
                    &&& f.signature matches Some(h) && h@ == trimmed(
                        shed_back(lines[j].skip(2), "@@"@),
                    )
                }
            &&& forall|j: int, k: int|
                #![trigger at[j], at[k]]
                0 <= j < k < at.len() ==> at[j] < at[k]
            &&& forall|j: int|
                0 <= j < lines.len() && begins(#[trigger] lines[j], "@@"@) ==> at.contains(j)
            &&& forall|k: int, i: int|
                0 <= k < at.len() && #[trigger] names_the_file_of(lines, i, at[k]) ==> {
                    let f = #[trigger] found.facts@[k];
                    &&& f.file_path matches Some(p) && p@ == named_path(lines[i])
                    &&& f.signature matches Some(h) && f.qualified_name@ == named_path(lines[i])
                        + "#"@ + h@
                }
            &&& forall|k: int|
                0 <= k < at.len() && no_file_before(lines, at[k]) ==> {
                    let f = #[trigger] found.facts@[k];
                    f.file_path matches Some(p) && p@ == "<unknown>"@
                }
        },
{
    let lines = line_list(content@);
    let at = diff_state_follows_the_lines(lines, lines.len());
    let s = DiffState::after(lines, lines.len());
    if exists|j: int| 0 <= j < lines.len() && begins(#[trigger] lines[j], "@@"@) {
        let j = choose|j: int| 0 <= j < lines.len() && begins(#[trigger] lines[j], "@@"@);
        crate::lines::what_a_line_begins_with_is_in_the_text(content@, j, "@@"@);
        assert(at.contains(j));
        assert(s.facts.len() > 0);
    }
    if r is Some {
        let found = r->0;
        assert(facts_of(found.facts@) == s.facts);
        assert(opens_hunk_at(lines, lines.len(), 0, at[0]));
        assert(begins(lines[at[0]], "@@"@));
        assert forall|k: int| 0 <= k < at.len() implies (#[trigger] found.facts@[k]).fact()
            == s.facts[k] by {
            assert(facts_of(found.facts@)[k] == found.facts@[k].fact());
        }
        assert forall|k: int| 0 <= k < at.len() implies {
            let f = #[trigger] found.facts@[k];
            let j = at[k];
            &&& 0 <= j < lines.len()
            &&& begins(lines[j], "@@"@)
            &&& f.kind is DiffHunk
            &&& f.body matches Some(b) && b@ == lines[j]
            &&& f.signature matches Some(h) && h@ == trimmed(shed_back(lines[j].skip(2), "@@"@))
        } by {
            assert(found.facts@[k].fact() == s.facts[k]);
            assert(opens_hunk_at(lines, lines.len(), k, at[k]));
        }
        assert forall|k: int, i: int|
            0 <= k < at.len() && #[trigger] names_the_file_of(lines, i, at[k]) implies {
            let f = #[trigger] found.facts@[k];
            &&& f.file_path matches Some(p) && p@ == named_path(lines[i])
            &&& f.signature matches Some(h) && f.qualified_name@ == named_path(lines[i]) + "#"@
                + h@
        } by {
            assert(found.facts@[k].fact() == s.facts[k]);
            assert(opens_hunk_at(lines, lines.len(), k, at[k]));
            assert(is_in_file(s.facts[k], named_path(lines[i])));
        }
        assert forall|k: int|
            0 <= k < at.len() && no_file_before(lines, at[k]) implies {
            let f = #[trigger] found.facts@[k];
            f.file_path matches Some(p) && p@ == "<unknown>"@
        } by {
            assert(found.facts@[k].fact() == s.facts[k]);
            assert(at[k] == at[k]);
        }
    }
    at
}

/// An output is read by the first parser that finds something: by the one for diffs where the
/// tool's name says so, and else as JSON, as headers, as a table, as a diff and as an exit
/// code, in this order. Where none does, there are no facts and no parser is named.
pub proof fn the_first_parser_that_finds_something_decides(
    tool_name: Option<&str>,
    content: &str,
    r: ToolOutputFacts,
    json: Option<ToolOutputFacts>,
    headers: Option<ToolOutputFacts>,
    table: Option<ToolOutputFacts>,
    diff: Option<ToolOutputFacts>,
    exit: Option<ToolOutputFacts>,
)
    requires
        call_ensures(ToolOutputParser::parse_any, (tool_name, content), r),
        call_ensures(ToolOutputParser::parse_json, (content,), json),
        call_ensures(ToolOutputParser::parse_http_headers, (content,), headers),
        call_ensures(ToolOutputParser::parse_csv, (content,), table),
        call_ensures(ToolOutputParser::parse_diff, (content,), diff),
        call_ensures(ToolOutputParser::parse_exit_code, (content,), exit),
    ensures
        ({
            let hinted = tool_name matches Some(n) && (contains_text(lowered_ascii(n@), "diff"@)
                || contains_text(lowered_ascii(n@), "patch"@));
            &&& hinted && diff is Some ==> r.extract() == diff->0.extract()
            &&& !(hinted && diff is Some) ==> {
                &&& json is Some ==> r.extract() == json->0.extract()
                &&& json is None && headers is Some ==> r.extract() == headers->0.extract()
                &&& json is None && headers is None && table is Some ==> r.extract()
                    == table->0.extract()
                &&& json is None && headers is None && table is None && diff is Some
                    ==> r.extract() == diff->0.extract()
                &&& json is None && headers is None && table is None && diff is None && exit is Some
                    ==> r.extract() == exit->0.extract()
                &&& json is None && headers is None && table is None && diff is None && exit is None
                    ==> r.facts@.len() == 0 && r.parser is None
            }
        }),
{
    assert(r.extract().facts.len() == r.facts@.len());
}

/// Every parser names itself, finds at least one fact where it finds anything, and gives each
/// fact the kind that it is there for.
pub proof fn parsers_tell_what_they_found(
    content: &str,
    json: Option<ToolOutputFacts>,
    headers: Option<ToolOutputFacts>,
    table: Option<ToolOutputFacts>,
    diff: Option<ToolOutputFacts>,
    exit: Option<ToolOutputFacts>,
)
    requires
        call_ensures(ToolOutputParser::parse_json, (content,), json),
        call_ensures(ToolOutputParser::parse_http_headers, (content,), headers),
        call_ensures(ToolOutputParser::parse_csv, (content,), table),
        call_ensures(ToolOutputParser::parse_diff, (content,), diff),
        call_ensures(ToolOutputParser::parse_exit_code, (content,), exit),
    ensures
        json matches Some(f) ==> f.facts@.len() > 0 && (f.parser matches Some(p) && p@ == "json"@),
        headers matches Some(f) ==> f.facts@.len() > 0 && (f.parser matches Some(p) && p@
            == "http_headers"@),
        table matches Some(f) ==> f.facts@.len() > 0 && (f.parser matches Some(p) && p@ == "csv"@),
        diff matches Some(f) ==> f.facts@.len() > 0 && (f.parser matches Some(p) && p@ == "diff"@),
        exit matches Some(f) ==> f.facts@.len() > 0 && (f.parser matches Some(p) && p@
            == "exit_code"@),
{
    if table is Some {
        let all = line_list(content@);
        let lines = filled_lines(all, all.len());
        pieces_hold_no_separator(lines[0], delimiter(lines[0]));
        assert(table->0.extract().facts.len() == table->0.facts@.len());
    }
    assert(json is Some ==> json->0.extract().facts.len() == json->0.facts@.len());
    assert(headers is Some ==> headers->0.extract().facts.len() == headers->0.facts@.len());
    assert(diff is Some ==> diff->0.extract().facts.len() == diff->0.facts@.len());
    assert(exit is Some ==> exit->0.extract().facts.len() == exit->0.facts@.len());
}

/// A run of digits is found where it stands first: after a beginning without digits, up to the
/// first character that is none.
proof fn the_first_run_of_digits(before: Seq<char>, run: Seq<char>, after: Seq<char>)
    requires
        forall|i: int| 0 <= i < before.len() ==> !is_digit(#[trigger] before[i]),
        run.len() > 0,
        all_digits(run),
        after.len() > 0 ==> !is_digit(after[0]),
    ensures
        digit_run(before + run + after) == run,
    decreases before.len() + run.len(),
{
    let s = before + run + after;
    if before.len() > 0 {
        let rest = before.drop_first();
        assert(s[0] == before[0]);
        assert(s.drop_first() =~= rest + run + after);
        assert forall|i: int| 0 <= i < rest.len() implies !is_digit(#[trigger] rest[i]) by {
            assert(rest[i] == before[i + 1]);
        }
        the_first_run_of_digits(rest, run, after);
    } else {
        assert(s =~= run + after);
        assert(s[0] == run[0]);
        leading_digits_are_the_run(run, after);
    }
}

proof fn leading_digits_are_the_run(run: Seq<char>, after: Seq<char>)
    requires
        all_digits(run),
        after.len() > 0 ==> !is_digit(after[0]),
    ensures
        leading_digits(run + after) == run,
    decreases run.len(),
{
    let s = run + after;
    if run.len() > 0 {
        let rest = run.drop_first();
        assert(s[0] == run[0]);
        assert(s.drop_first() =~= rest + after);
        assert forall|i: int| 0 <= i < rest.len() implies is_digit(#[trigger] rest[i]) by {
            assert(rest[i] == run[i + 1]);
        }
        leading_digits_are_the_run(rest, after);
        assert(seq![run[0]] + rest =~= run);
    } else {
        assert(s =~= after);
        assert(run =~= Seq::empty());
    }
}

/// The exit code of an output is the first number in it, in a short output that speaks of an
/// exit or a status.
pub proof fn the_exit_code_is_the_first_number(
    content: &str,
    r: Option<ToolOutputFacts>,
    before: Seq<char>,
    run: Seq<char>,
    after: Seq<char>,
)
    requires
        call_ensures(ToolOutputParser::parse_exit_code, (content,), r),
        lowered_ascii(trimmed(content@)) == before + run + after,
        forall|i: int| 0 <= i < before.len() ==> !is_digit(#[trigger] before[i]),
        all_digits(run),
        run.len() == 0 ==> after.len() == 0,
        after.len() > 0 ==> !is_digit(after[0]),
    ensures
        ({
            let text = lowered_ascii(trimmed(content@));
            &&& r is Some <==> bytes_of(text) <= 64 && run.len() > 0 && number_of(run) <= i64::MAX
                && (contains_text(text, "exit"@) || contains_text(text, "status"@))
            &&& r matches Some(found) ==> {
                &&& found.facts@.len() == 1
                &&& found.facts@[0].kind is ToolExitCode
                &&& found.facts@[0].qualified_name@ == "exit_code"@
                &&& found.facts@[0].signature matches Some(s) && s@ == digits(number_of(run))
                &&& found.facts@[0].body matches Some(b) && b@ == trimmed(content@)
            }
        }),
{
    let text = lowered_ascii(trimmed(content@));
    if run.len() > 0 {
        the_first_run_of_digits(before, run, after);
    } else {
        assert(before + run + after =~= before);
        no_digits_no_run(before);
    }
    if r is Some {
        let found = r->0;
        assert(facts_of(found.facts@).len() == found.facts@.len());
        assert(facts_of(found.facts@)[0] == found.facts@[0].fact());
    }
}

proof fn no_digits_no_run(s: Seq<char>)
    requires
        forall|i: int| 0 <= i < s.len() ==> !is_digit(#[trigger] s[i]),
    ensures
        digit_run(s).len() == 0,
    decreases s.len(),
{
    if s.len() > 0 {
        let rest = s.drop_first();
        assert forall|i: int| 0 <= i < rest.len() implies !is_digit(#[trigger] rest[i]) by {
            assert(rest[i] == s[i + 1]);
        }
        no_digits_no_run(rest);
    }
}

/// The lines that are left once the blank ones are taken out, with where each of them stands.
proof fn filled_lines_keep_their_order(lines: Seq<Seq<char>>, n: nat) -> (at: Seq<int>)
    requires
        n <= lines.len(),
    ensures
        at.len() == filled_lines(lines, n).len(),
        forall|k: int|
            0 <= k < at.len() ==> 0 <= #[trigger] at[k] < n && !is_blank(lines[at[k]])
                && filled_lines(lines, n)[k] == lines[at[k]],
        forall|j: int, k: int|
            #![trigger at[j], at[k]]
            0 <= j < k < at.len() ==> at[j] < at[k],
        forall|j: int| 0 <= j < n && !is_blank(#[trigger] lines[j]) ==> at.contains(j),
    decreases n,
{
    if n == 0 {
        Seq::empty()
    } else {
        let before = filled_lines_keep_their_order(lines, (n - 1) as nat);
        let at = if is_blank(lines[n - 1]) {
            before
        } else {
            before.push(n - 1)
        };
        assert forall|j: int| 0 <= j < n && !is_blank(#[trigger] lines[j]) implies at.contains(
            j,
        ) by {
            if j == n - 1 {
                assert(at[at.len() - 1] == j);
            } else {
                let k = choose|k: int| 0 <= k < before.len() && before[k] == j;
                assert(at[k] == j);
            }
        }
        at
    }
}

/// The lines at the second to the ninth of the places, as far as there are so many.
pub open spec fn rows_under(lines: Seq<Seq<char>>, at: Seq<int>) -> Seq<Seq<char>> {
    Seq::new(
        if at.len() > 9 {
            8
        } else {
            (at.len() - 1) as nat
        },
        |k: int| lines[at[k + 1]],
    )
}

/// The cells of a header: between its tabs where it has more of them than commas, and else
/// between its commas.
pub open spec fn header_cells(header: Seq<char>) -> Seq<Seq<char>> {
    if occurrences(header, '\t') > occurrences(header, ',') {
        split_on(header, '\t')
    } else {
        split_on(header, ',')
    }
}

/// Whether a header has at least two cells, each with a name that is one word.
pub open spec fn header_is_proper(header: Seq<char>) -> bool {
    let cells = header_cells(header);
    cells.len() >= 2 && forall|i: int|
        0 <= i < cells.len() ==> trimmed(#[trigger] cells[i]).len() > 0 && !trimmed(
            cells[i],
        ).contains(' ')
}

/// A table yields one fact for each column, by its name and in order, with the header and up to
/// eight rows as its text. `at` tells where its lines stand, the blank ones left out. It is a
/// table where there is a row under the header and the header parts into proper names, at the
/// tabs where it has more of them than commas and else at the commas.
pub proof fn a_table_yields_its_columns(
    content: &str,
    r: Option<ToolOutputFacts>,
) -> (at: Seq<int>)
    requires
        call_ensures(ToolOutputParser::parse_csv, (content,), r),
    ensures
        forall|k: int|
            0 <= k < at.len() ==> 0 <= #[trigger] at[k] < line_list(content@).len() && !is_blank(
                line_list(content@)[at[k]],
            ),
        forall|j: int, k: int|
            #![trigger at[j], at[k]]
            0 <= j < k < at.len() ==> at[j] < at[k],
        forall|j: int|
            0 <= j < line_list(content@).len() && !is_blank(#[trigger] line_list(content@)[j])
                ==> at.contains(j),
        at.len() < 2 ==> r is None,
        at.len() >= 2 ==> (r is Some <==> header_is_proper(line_list(content@)[at[0]])),
        r matches Some(found) ==> at.len() >= 2 && found.facts@.len() == header_cells(
            line_list(content@)[at[0]],
        ).len(),
        r matches Some(found) ==> forall|i: int|
            0 <= i < found.facts@.len() ==> {
                let f = #[trigger] found.facts@[i];
                let header = line_list(content@)[at[0]];
                &&& f.kind is CsvColumn
                &&& f.qualified_name@ == trimmed(header_cells(header)[i])
                &&& f.body matches Some(b) && b@ == header + "\n"@ + joined(
                    rows_under(line_list(content@), at),
                    "\n"@,
                )
            },
{
    let all = line_list(content@);
    let at = filled_lines_keep_their_order(all, all.len());
    let lines = filled_lines(all, all.len());
    if at.len() >= 2 {
        let header = lines[0];
        assert(lines[0] == all[at[0]]);
        let sep = delimiter(header);
        let cells = split_on(header, sep);
        let names = columns(header);
        each_separator_parts_once(header, sep);
        let rows = sample_rows(lines);
        let shown = rows_under(all, at);
        assert(rows =~= shown);
        assert forall|i: int| 0 <= i < cells.len() implies names[i] == trimmed(
            #[trigger] cells[i],
        ) by {}
        if exists|i: int| 0 <= i < names.len() && !is_column_name(#[trigger] names[i]) {
            let i = choose|i: int| 0 <= i < names.len() && !is_column_name(#[trigger] names[i]);
            assert(names[i] == trimmed(cells[i]));
        }
        assert forall|i: int| r is Some && 0 <= i < cells.len() implies trimmed(
            #[trigger] cells[i],
        ).len() > 0 && !trimmed(cells[i]).contains(' ') by {
            assert(is_column_name(names[i]));
        }
        if r is Some {
            let found = r->0;
            assert(facts_of(found.facts@).len() == found.facts@.len());
            assert forall|i: int| 0 <= i < cells.len() implies {
                let f = #[trigger] found.facts@[i];
                &&& f.kind is CsvColumn
                &&& f.qualified_name@ == trimmed(cells[i])
                &&& f.body matches Some(b) && b@ == header + "\n"@ + joined(shown, "\n"@)
            } by {
                assert(facts_of(found.facts@)[i] == found.facts@[i].fact());
            }
        }
    }
    at
}

/// Whether a line is a header: a name of ASCII letters, digits, hyphens and underscores, at
/// most 64 bytes long, stands before its first colon.
pub open spec fn is_header_line(line: Seq<char>) -> bool {
    first_at(line, ':') matches Some(i) && 0 < i && bytes_of(line.take(i)) <= 64 && forall|k: int|
        0 <= k < i ==> {
            let c = #[trigger] line[k];
            'a' <= c <= 'z' || 'A' <= c <= 'Z' || '0' <= c <= '9' || c == '-' || c == '_'
        }
}

/// Whether a line has no place in a header block: it says something, is no header and no
/// status line.
pub open spec fn is_foreign_line(line: Seq<char>) -> bool {
    line.len() > 0 && !is_header_line(line) && !begins(line, "HTTP/"@)
}

/// Whether a fact is that of a header line: its name in small letters, and its value.
pub open spec fn is_fact_of_header(f: Fact, line: Seq<char>) -> bool {
    &&& is_header_line(line)
    &&& f.kind is HttpHeader
    &&& f.name == lowered_ascii(line.take(first_at(line, ':')->0))
    &&& f.signature == Some(trimmed(line.skip(first_at(line, ':')->0 + 1)))
}

proof fn header_names_agree(line: Seq<char>)
    ensures
        is_header_line(line) <==> (first_at(line, ':') matches Some(i) && is_header_name(
            line.take(i),
        )),
{
    first_at_is_first(line, ':');
    match first_at(line, ':') {
        Some(i) => {
            let name = line.take(i);
            if is_header_name(name) {
                assert forall|k: int| 0 <= k < i implies is_header_char(#[trigger] line[k]) by {
                    assert(name[k] == line[k]);
                }
            }
            if is_header_line(line) {
                assert forall|k: int| 0 <= k < name.len() implies is_header_char(
                    #[trigger] name[k],
                ) by {
                    assert(name[k] == line[k]);
                }
            }
        },
        None => {},
    }
}

proof fn header_state_follows_the_lines(lines: Seq<Seq<char>>, n: nat) -> (at: Seq<int>)
    requires
        n <= lines.len(),
    ensures
        at.len() == HeaderState::after(lines, n).facts.len(),
        forall|k: int|
            0 <= k < at.len() ==> 0 <= #[trigger] at[k] < n && is_fact_of_header(
                HeaderState::after(lines, n).facts[k],
                trim_back(lines[at[k]]),
            ),
        forall|j: int, k: int|
            #![trigger at[j], at[k]]
            0 <= j < k < at.len() ==> at[j] < at[k],
        (forall|i: int|
            0 <= i < n ==> is_header_line(trim_back(#[trigger] lines[i])) && !begins(
                trim_back(lines[i]),
                "HTTP/"@,
            )) ==> HeaderState::after(lines, n).verdict is Going && at.len() == n,
        forall|m: int|
            0 <= m < n && is_foreign_line(trim_back(#[trigger] lines[m])) ==> !(HeaderState::after(
                lines,
                n,
            ).verdict is Going) && (at.len() > 0 ==> at[at.len() - 1] < m),
        HeaderState::after(lines, n).verdict is Refused ==> at.len() == 0,
        forall|m: int|
            0 <= m < n && is_foreign_line(trim_back(#[trigger] lines[m])) && (forall|i: int|
                0 <= i < m ==> !is_header_line(trim_back(#[trigger] lines[i]))) ==> at.len() == 0,
    decreases n,
{
    reveal_strlit("HTTP/");
    if n == 0 {
        Seq::empty()
    } else {
        let before = header_state_follows_the_lines(lines, (n - 1) as nat);
        let old = HeaderState::after(lines, (n - 1) as nat);
        let new = HeaderState::after(lines, n);
        let line = trim_back(lines[n - 1]);
        header_names_agree(line);
        first_at_is_first(line, ':');
        let at = if new.facts.len() > old.facts.len() {
            before.push(n - 1)
        } else {
            before
        };
        assert forall|k: int| 0 <= k < at.len() implies 0 <= #[trigger] at[k] < n
            && is_fact_of_header(new.facts[k], trim_back(lines[at[k]])) by {
            if k < before.len() {
                assert(at[k] == before[k]);
                assert(new.facts[k] == old.facts[k]);
            }
        }
        assert forall|j: int, k: int|
            #![trigger at[j], at[k]]
            0 <= j < k < at.len() implies at[j] < at[k] by {
            assert(at[j] == before[j]);
            if k < before.len() {
                assert(at[k] == before[k]);
            }
        }
        assert forall|m: int|
            0 <= m < n && is_foreign_line(trim_back(#[trigger] lines[m])) implies !(
        new.verdict is Going) && (at.len() > 0 ==> at[at.len() - 1] < m) by {
            if m == n - 1 {
                if at.len() > 0 {
                    assert(at[at.len() - 1] == before[at.len() - 1]);
                }
            }
        }
        assert forall|m: int|
            0 <= m < n && is_foreign_line(trim_back(#[trigger] lines[m])) && (forall|i: int|
                0 <= i < m ==> !is_header_line(trim_back(#[trigger] lines[i]))) implies at.len()
            == 0 by {
            if at.len() > 0 {
                let last = at[at.len() - 1];
                assert(last < m);
                assert(is_header_line(trim_back(lines[last])));
            }
        }
        at
    }
}

/// A header block yields one fact for each of its header lines, in order, by its name in small
/// letters and with its value. `at` tells which line each fact comes from. Only the first 64
/// lines are looked at. A line that has no place among headers ends the block, and before the
/// first header it shows that there is none; a text that begins with headers yields all of them.
pub proof fn a_header_block_yields_its_headers(
    content: &str,
    r: Option<ToolOutputFacts>,
    n: int,
) -> (at: Seq<int>)
    requires
        call_ensures(ToolOutputParser::parse_http_headers, (content,), r),
    ensures
        r matches Some(found) ==> at.len() == found.facts@.len(),
        r matches Some(found) ==> forall|k: int|
            0 <= k < at.len() ==> {
                let f = #[trigger] found.facts@[k];
                &&& 0 <= at[k] < line_list(content@).len()
                &&& at[k] < 64
                &&& is_fact_of_header(f.fact(), trim_back(line_list(content@)[at[k]]))
            },
        forall|j: int, k: int|
            #![trigger at[j], at[k]]
            0 <= j < k < at.len() ==> at[j] < at[k],
        r is Some && 0 <= n < line_list(content@).len() && n < 64 && is_foreign_line(
            trim_back(line_list(content@)[n]),
        ) ==> forall|k: int| 0 <= k < at.len() ==> #[trigger] at[k] < n,
        0 <= n < line_list(content@).len() && n < 64 && is_foreign_line(
            trim_back(line_list(content@)[n]),
        ) && (forall|i: int|
            0 <= i < n ==> !is_header_line(trim_back(#[trigger] line_list(content@)[i])))
            ==> r is None,
        0 < n <= line_list(content@).len() && n <= 64 && (forall|i: int|
            0 <= i < n ==> is_header_line(trim_back(#[trigger] line_list(content@)[i])) && !begins(
                trim_back(line_list(content@)[i]),
                "HTTP/"@,
            )) ==> r is Some && at.len() >= n,
{
    let lines = line_list(content@);
    let count = header_lines(lines);
    let at = header_state_follows_the_lines(lines, count);
    let end = HeaderState::after(lines, count);
    if r is Some {
        let found = r->0;
        assert(facts_of(found.facts@).len() == found.facts@.len());
        assert forall|k: int| 0 <= k < at.len() implies {
            let f = #[trigger] found.facts@[k];
            &&& 0 <= at[k] < lines.len()
            &&& at[k] < 64
            &&& is_fact_of_header(f.fact(), trim_back(lines[at[k]]))
        } by {
            assert(facts_of(found.facts@)[k] == found.facts@[k].fact());
            assert(is_fact_of_header(end.facts[k], trim_back(lines[at[k]])));
        }
    }
    if 0 <= n < lines.len() && n < 64 && is_foreign_line(trim_back(lines[n])) {
        assert forall|k: int| 0 <= k < at.len() implies #[trigger] at[k] < n by {
            assert(at[k] <= at[at.len() - 1]);
        }
    }
    if 0 < n <= count && (forall|i: int|
        0 <= i < n ==> is_header_line(trim_back(#[trigger] lines[i])) && !begins(
            trim_back(lines[i]),
            "HTTP/"@,
        )) {
        let early = header_state_follows_the_lines(lines, n as nat);
        facts_of_headers_stay(lines, n as nat, count);
        if end.verdict is Refused {
            assert(at.len() == 0);
        }
    }
    at
}

/// Reading on takes no fact back.
proof fn facts_of_headers_stay(lines: Seq<Seq<char>>, m: nat, n: nat)
    requires
        m <= n <= lines.len(),
    ensures
        HeaderState::after(lines, m).facts.len() <= HeaderState::after(lines, n).facts.len(),
    decreases n,
{
    if m < n {
        facts_of_headers_stay(lines, m, (n - 1) as nat);
    }
}

/// Where one gets in a document by taking steps, from member to member of objects and to the
/// first element of lists: the path in the notation of dots and brackets, and the value there,
/// if it holds no others.
pub open spec fn followed(value: Tree, prefix: Seq<char>, steps: Seq<int>) -> Option<
    (Seq<char>, Tree),
>
    decreases steps.len(),
{
    if steps.len() == 0 {
        if value is List || value is Object {
            None
        } else {
            Some((prefix, value))
        }
    } else {
        let rest = steps.drop_first();
        match value {
            Tree::Object(members) => if 0 <= steps[0] < members.len() {
                let (key, inner) = members[steps[0]];
                followed(
                    inner,
                    if prefix.len() == 0 {
                        key
                    } else {
                        prefix + "."@ + key
                    },
                    rest,
                )
            } else {
                None
            },
            Tree::List(items) => if steps[0] == 0 && items.len() > 0 {
                followed(items[0], prefix + "[]"@, rest)
            } else {
                None
            },
            _ => None,
        }
    }
}

/// The name of the type of a value that holds no others.
pub open spec fn leaf_type(value: Tree) -> Seq<char> {
    match value {
        Tree::Null => "null"@,
        Tree::Bool(_) => "boolean"@,
        Tree::Text(_) => "string"@,
        Tree::Number { signed, unsigned } => if signed is None && unsigned is None {
            "number"@
        } else {
            "integer"@
        },
        _ => Seq::empty(),
    }
}

/// Whether a fact is that of the value at a path.
spec fn is_fact_of_leaf(f: Fact, path: Seq<char>, value: Tree) -> bool {
    &&& f.kind is JsonField
    &&& f.name == path
    &&& f.signature == Some(leaf_type(value))
}

/// Whether a fact comes from somewhere in a value, in so many steps at most.
spec fn comes_from(f: Fact, value: Tree, prefix: Seq<char>, steps: Seq<int>, limit: int) -> bool {
    &&& steps.len() <= limit
    &&& followed(value, prefix, steps) matches Some((path, leaf)) && is_fact_of_leaf(f, path, leaf)
}

/// Whether a fact comes from somewhere in a value, in so many steps at most.
spec fn has_source(f: Fact, value: Tree, prefix: Seq<char>, limit: int) -> bool {
    exists|steps: Seq<int>| #[trigger] comes_from(f, value, prefix, steps, limit)
}

/// Whether one of the facts `from` on is that of the value that the steps lead to.
spec fn has_fact(
    facts: Seq<Fact>,
    from: int,
    value: Tree,
    prefix: Seq<char>,
    steps: Seq<int>,
    limit: int,
) -> bool {
    exists|k: int|
        from <= k < facts.len() && comes_from(#[trigger] facts[k], value, prefix, steps, limit)
}

/// Whether facts `from` on are what a value yields: each comes from it, and where the list was
/// not cut, everything in reach of it is there.
spec fn facts_follow(
    facts: Seq<Fact>,
    from: int,
    value: Tree,
    prefix: Seq<char>,
    limit: int,
) -> bool {
    &&& from <= facts.len()
    &&& forall|k: int|
        from <= k < facts.len() ==> has_source(#[trigger] facts[k], value, prefix, limit)
    &&& facts.len() <= 200 ==> forall|steps: Seq<int>|
        steps.len() <= limit && (#[trigger] followed(value, prefix, steps)) is Some ==> has_fact(
            facts,
            from,
            value,
            prefix,
            steps,
            limit,
        )
}

/// One step further out: what comes from a member comes from its object.
proof fn one_step_out(
    f: Fact,
    value: Tree,
    prefix: Seq<char>,
    i: int,
    inner: Tree,
    path: Seq<char>,
    steps: Seq<int>,
    limit: int,
)
    requires
        comes_from(f, inner, path, steps, limit),
        value matches Tree::Object(members) ==> 0 <= i < members.len() && members[i].1 == inner
            && path == member_path(prefix, members[i].0),
        value matches Tree::List(items) ==> i == 0 && items.len() > 0 && items[0] == inner && path
            == prefix + "[]"@,
        value is Object || value is List,
    ensures
        comes_from(f, value, prefix, seq![i] + steps, limit + 1),
{
    let longer = seq![i] + steps;
    assert(longer.drop_first() =~= steps);
}

/// What the first element of a list yields is what the list yields.
proof fn lists_follow_their_first_value(
    facts: Seq<Fact>,
    from: int,
    value: Tree,
    prefix: Seq<char>,
    limit: int,
)
    requires
        value is List,
        value->List_0.len() > 0,
        facts_follow(facts, from, value->List_0[0], prefix + "[]"@, limit - 1),
        holds_others(value->List_0[0]),
    ensures
        facts_follow(facts, from, value, prefix, limit),
{
    let inner = value->List_0[0];
    let path = prefix + "[]"@;
    assert forall|k: int| from <= k < facts.len() implies has_source(
        #[trigger] facts[k],
        value,
        prefix,
        limit,
    ) by {
        let steps = choose|steps: Seq<int>| #[trigger]
            comes_from(facts[k], inner, path, steps, limit - 1);
        one_step_out(facts[k], value, prefix, 0, inner, path, steps, limit - 1);
    }
    assert forall|steps: Seq<int>|
        facts.len() <= 200 && steps.len() <= limit && (#[trigger] followed(
            value,
            prefix,
            steps,
        )) is Some implies has_fact(facts, from, value, prefix, steps, limit) by {
        let rest = steps.drop_first();
        assert(followed(inner, path, rest) is Some);
        let k = choose|k: int|
            from <= k < facts.len() && comes_from(
                #[trigger] facts[k],
                inner,
                path,
                rest,
                limit - 1,
            );
        assert(comes_from(facts[k], value, prefix, steps, limit));
    }
}

/// A list of values that hold no others yields its first one.
proof fn lists_follow_their_first_leaf(
    facts: Seq<Fact>,
    value: Tree,
    prefix: Seq<char>,
    limit: int,
)
    requires
        value is List,
        value->List_0.len() > 0,
        !holds_others(value->List_0[0]),
        facts.len() > 0,
        facts.last() == json_leaf_fact(prefix + "[]"@, value->List_0[0]),
        limit >= 1,
    ensures
        facts_follow(facts, facts.len() - 1, value, prefix, limit),
{
    let inner = value->List_0[0];
    let path = prefix + "[]"@;
    let from = facts.len() - 1;
    let f = facts[from];
    let none = Seq::<int>::empty();
    assert(comes_from(f, inner, path, none, 0));
    one_step_out(f, value, prefix, 0, inner, path, none, 0);
    assert(comes_from(facts[from], value, prefix, seq![0int] + none, limit));
    assert forall|steps: Seq<int>|
        steps.len() <= limit && (#[trigger] followed(value, prefix, steps)) is Some implies has_fact(
        facts,
        from,
        value,
        prefix,
        steps,
        limit,
    ) by {
        let rest = steps.drop_first();
        assert(followed(inner, path, rest) is Some);
        assert(rest.len() == 0);
        assert(comes_from(facts[from], value, prefix, steps, limit));
    }
}

proof fn flattening_follows_the_value(
    value: Tree,
    prefix: Seq<char>,
    so_far: Seq<Fact>,
    depth: nat,
)
    requires
        value is List || value is Object || depth <= 6,
    ensures
        so_far.is_prefix_of(flattened(value, prefix, so_far, depth)),
        facts_follow(
            flattened(value, prefix, so_far, depth),
            so_far.len() as int,
            value,
            prefix,
            7 - depth,
        ),
    decreases value, 1int,
{
    let facts = flattened(value, prefix, so_far, depth);
    let from = so_far.len() as int;
    let limit = 7 - depth;
    if depth > 6 || so_far.len() > 200 {
        assert forall|steps: Seq<int>|
            facts.len() <= 200 && steps.len() <= limit && (#[trigger] followed(
                value,
                prefix,
                steps,
            )) is Some implies has_fact(facts, from, value, prefix, steps, limit)
             by {
            assert(steps.len() == 0);
        }
    } else {
        match value {
            Tree::Object(members) => {
                assert(members =~= members.take(members.len() as int));
                flattening_follows_the_members(value, members.len() as int, prefix, so_far, depth);
                assert forall|steps: Seq<int>|
                    facts.len() <= 200 && steps.len() <= limit && (#[trigger] followed(
                        value,
                        prefix,
                        steps,
                    )) is Some implies has_fact(facts, from, value, prefix, steps, limit) by {
                    assert(steps.len() > 0 && steps[0] < members.len());
                }
            },
            Tree::List(items) => {
                if items.len() > 0 && holds_others(items[0]) {
                    flattening_follows_the_value(items[0], prefix + "[]"@, so_far, depth + 1);
                    lists_follow_their_first_value(facts, from, value, prefix, limit);
                } else if items.len() > 0 {
                    let f = json_leaf_fact(prefix + "[]"@, items[0]);
                    assert(facts == so_far.push(f));
                    lists_follow_their_first_leaf(facts, value, prefix, limit);
                }
            },
            _ => {
                let none = Seq::<int>::empty();
                assert(facts[from] == json_leaf_fact(prefix, value));
                assert(comes_from(facts[from], value, prefix, none, limit));
                assert forall|steps: Seq<int>|
                    facts.len() <= 200 && steps.len() <= limit && (#[trigger] followed(
                        value,
                        prefix,
                        steps,
                    )) is Some implies has_fact(facts, from, value, prefix, steps, limit) by {
                    assert(steps.len() == 0);
                    assert(comes_from(facts[from], value, prefix, steps, limit));
                }
            },
        }
    }
}

/// Whether facts `from` on are what the first `n` members of an object yield.
spec fn facts_follow_members(
    facts: Seq<Fact>,
    from: int,
    value: Tree,
    n: int,
    prefix: Seq<char>,
    limit: int,
) -> bool {
    &&& from <= facts.len()
    &&& forall|k: int|
        from <= k < facts.len() ==> has_source(#[trigger] facts[k], value, prefix, limit)
    &&& facts.len() <= 200 ==> forall|steps: Seq<int>|
        0 < steps.len() <= limit && steps[0] < n && (#[trigger] followed(
            value,
            prefix,
            steps,
        )) is Some ==> has_fact(facts, from, value, prefix, steps, limit)
}

proof fn flattening_follows_the_members(
    value: Tree,
    n: int,
    prefix: Seq<char>,
    so_far: Seq<Fact>,
    depth: nat,
)
    requires
        value is Object,
        0 <= n <= value->Object_0.len(),
        depth <= 6,
    ensures
        so_far.is_prefix_of(flattened_members(value->Object_0.take(n), prefix, so_far, depth)),
        facts_follow_members(
            flattened_members(value->Object_0.take(n), prefix, so_far, depth),
            so_far.len() as int,
            value,
            n,
            prefix,
            7 - depth,
        ),
    decreases value, 0int, n,
{
    let members = value->Object_0;
    let limit = 7 - depth;
    let from = so_far.len() as int;
    if n > 0 {
        flattening_follows_the_members(value, n - 1, prefix, so_far, depth);
        assert(members.take(n).drop_last() =~= members.take(n - 1));
        assert(members.take(n).last() == members[n - 1]);
        let before = flattened_members(members.take(n - 1), prefix, so_far, depth);
        let facts = flattened_members(members.take(n), prefix, so_far, depth);
        let inner = members[n - 1].1;
        let path = member_path(prefix, members[n - 1].0);
        if holds_others(inner) {
            assert(decreases_to!(value => members));
            assert(decreases_to!(members => members[n - 1]));
            assert(decreases_to!(members[n - 1] => members[n - 1].1));
            flattening_follows_the_value(inner, path, before, depth + 1);
            assert(facts_follow(facts, before.len() as int, inner, path, limit - 1));
        } else {
            let f = json_leaf_fact(path, inner);
            let none = Seq::<int>::empty();
            assert(facts == before.push(f));
            assert(comes_from(f, inner, path, none, 0));
        }
        assert(before.is_prefix_of(facts));
        assert forall|k: int| from <= k < facts.len() implies has_source(
            #[trigger] facts[k],
            value,
            prefix,
            limit,
        ) by {
            if k < before.len() {
                assert(facts[k] == before[k]);
                let steps = choose|steps: Seq<int>| #[trigger]
                    comes_from(before[k], value, prefix, steps, limit);
                assert(comes_from(facts[k], value, prefix, steps, limit));
            } else if holds_others(inner) {
                let steps = choose|steps: Seq<int>| #[trigger]
                    comes_from(facts[k], inner, path, steps, limit - 1);
                one_step_out(facts[k], value, prefix, n - 1, inner, path, steps, limit - 1);
            } else {
                let none = Seq::<int>::empty();
                one_step_out(facts[k], value, prefix, n - 1, inner, path, none, 0);
                assert(comes_from(facts[k], value, prefix, seq![n - 1] + none, limit));
            }
        }
        assert forall|steps: Seq<int>|
            facts.len() <= 200 && 0 < steps.len() <= limit && steps[0] < n && (#[trigger] followed(
                value,
                prefix,
                steps,
            )) is Some implies has_fact(facts, from, value, prefix, steps, limit)
             by {
            if steps[0] < n - 1 {
                let k = choose|k: int|
                    from <= k < before.len() && comes_from(
                        #[trigger] before[k],
                        value,
                        prefix,
                        steps,
                        limit,
                    );
                assert(facts[k] == before[k]);
                assert(comes_from(facts[k], value, prefix, steps, limit));
            } else {
                let rest = steps.drop_first();
                assert(followed(inner, path, rest) is Some);
                if holds_others(inner) {
                    let k = choose|k: int|
                        before.len() <= k < facts.len() && comes_from(
                            #[trigger] facts[k],
                            inner,
                            path,
                            rest,
                            limit - 1,
                        );
                    assert(comes_from(facts[k], value, prefix, steps, limit));
                } else {
                    assert(rest.len() == 0);
                    let k = before.len() as int;
                    assert(comes_from(facts[k], value, prefix, steps, limit));
                }
            }
        }
    } else {
        assert(members.take(0) =~= Seq::empty());
        assert forall|steps: Seq<int>|
            0 < steps.len() <= limit && steps[0] < 0 implies (#[trigger] followed(
            value,
            prefix,
            steps,
        )) is None by {}
    }
}

/// Whether a written fact is that of the value at a path: the path is its name, and the type of
/// the value its signature.
pub open spec fn is_written_leaf(w: SymbolicWrite, at: Option<(Seq<char>, Tree)>) -> bool {
    match at {
        Some((path, leaf)) => {
            &&& w.kind is JsonField
            &&& w.qualified_name@ == path
            &&& w.signature matches Some(t) && t@ == leaf_type(leaf)
        },
        None => false,
    }
}

/// A JSON document yields a fact for each value in it that holds no others, by its path and
/// with its type, and no other facts: fact `k` is that of such a value, at most seven steps deep,
/// and a value that so many steps lead to has its fact, unless there are more than 200.
pub proof fn a_document_yields_its_leaves(
    value: &Json,
    r: Option<ToolOutputFacts>,
    k: int,
    steps: Seq<int>,
)
    requires
        call_ensures(ToolOutputParser::facts_of_json, (value,), r),
    ensures
        r matches Some(found) ==> 0 <= k < found.facts@.len() ==> exists|way: Seq<int>|
            way.len() <= 7 && is_written_leaf(
                found.facts@[k],
                #[trigger] followed(value.tree(), Seq::empty(), way),
            ),
        steps.len() <= 7 && followed(value.tree(), Seq::empty(), steps) is Some ==> r is Some,
        r matches Some(found) ==> steps.len() <= 7 && found.facts@.len() <= 200 && followed(
            value.tree(),
            Seq::empty(),
            steps,
        ) is Some ==> exists|i: int|
            0 <= i < found.facts@.len() && is_written_leaf(
                #[trigger] found.facts@[i],
                followed(value.tree(), Seq::empty(), steps),
            ),
{
    let tree = value.tree();
    let none = Seq::<char>::empty();
    let facts = flattened(tree, none, Seq::empty(), 0);
    flattening_follows_the_value(tree, none, Seq::empty(), 0);
    if followed(tree, none, steps) is Some && steps.len() <= 7 && facts.len() <= 200 {
        let i = choose|i: int|
            0 <= i < facts.len() && comes_from(#[trigger] facts[i], tree, none, steps, 7);
        if r is Some {
            let found = r->0;
            assert(facts_of(found.facts@)[i] == found.facts@[i].fact());
            assert(is_written_leaf(found.facts@[i], followed(tree, none, steps)));
        }
    }
    if r is Some {
        let found = r->0;
        assert(facts_of(found.facts@).len() == found.facts@.len());
        if 0 <= k < found.facts@.len() {
            assert(facts_of(found.facts@)[k] == found.facts@[k].fact());
            let way = choose|way: Seq<int>| #[trigger] comes_from(facts[k], tree, none, way, 7);
            assert(is_written_leaf(found.facts@[k], followed(tree, none, way)));
        }
    }
}

} // verus!
