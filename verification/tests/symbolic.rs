//! Facts read off code and tool output.

use sakur4_core::json::Json;
use sakur4_core::memory::symbolic::{
    FactKind, FactSource, SymbolicFact, SymbolicWrite, ToolOutputParser,
};
use sakur4_core::tokens::{CharTokenizer, TokenCounter};

#[test]
fn ast_hash_changes_when_the_signature_changes() {
    let a = SymbolicWrite::new(FactKind::Function, "m::f")
        .at_path("src/lib.rs")
        .signature("fn f(x: i32)")
        .body("fn f(x: i32) -> i32 { x }");
    let b = SymbolicWrite::new(FactKind::Function, "m::f")
        .at_path("src/lib.rs")
        .signature("fn f(x: i64)")
        .body("fn f(x: i64) -> i64 { x }");
    assert_ne!(a.ast_hash(), b.ast_hash());
}

#[test]
fn ast_hash_is_stable_for_identical_input() {
    let make =
        || SymbolicWrite::new(FactKind::Function, "m::f").signature("fn f()").body("fn f() {}");
    assert_eq!(make().ast_hash(), make().ast_hash());
}

#[test]
fn rename_invalidates_even_with_identical_body() {
    let body = "fn f() {}";
    let a = SymbolicWrite::new(FactKind::Function, "m::f").body(body);
    let b = SymbolicWrite::new(FactKind::Function, "m::g").body(body);
    assert_ne!(a.ast_hash(), b.ast_hash());
}

#[test]
fn json_parser_flattens_leaf_paths() {
    let out = ToolOutputParser::parse_json(r#"{"user":{"id":1,"name":"a"},"ok":true}"#).unwrap();
    let names: Vec<&str> = out.facts.iter().map(|f| f.qualified_name.as_str()).collect();
    assert!(names.contains(&"user.id"));
    assert!(names.contains(&"user.name"));
    assert!(names.contains(&"ok"));
    assert_eq!(out.parser, Some("json"));
}

#[test]
fn json_parser_refuses_prose() {
    assert!(ToolOutputParser::parse_json("just some words").is_none());
    assert!(ToolOutputParser::parse_json("{not json").is_none());
}

#[test]
fn header_parser_reads_status_and_fields() {
    let raw = "HTTP/1.1 200 OK\r\nContent-Type: application/json\r\nX-Trace: abc\r\n";
    let out = ToolOutputParser::parse_http_headers(raw).unwrap();
    assert_eq!(out.facts.len(), 2);
    assert_eq!(out.facts[0].qualified_name, "content-type");
    assert_eq!(out.facts[0].signature.as_deref(), Some("application/json"));
    assert!(out.summary.contains("200 OK"));
}

#[test]
fn csv_parser_needs_a_header_row() {
    let out = ToolOutputParser::parse_csv("id,name\n1,a\n2,b\n").unwrap();
    assert_eq!(out.facts.len(), 2);
    assert_eq!(out.facts[1].qualified_name, "name");
    assert!(ToolOutputParser::parse_csv("no delimiters here").is_none());
}

#[test]
fn diff_parser_extracts_hunks_with_files() {
    let raw = "--- a/src/lib.rs\n+++ b/src/lib.rs\n@@ -1,3 +1,4 @@\n context\n+added\n@@ -10,2 +11,2 @@\n-x\n+y\n";
    let out = ToolOutputParser::parse_diff(raw).unwrap();
    assert_eq!(out.facts.len(), 2);
    assert_eq!(out.facts[0].file_path.as_deref(), Some("src/lib.rs"));
    assert!(out.facts[0].qualified_name.contains("src/lib.rs"));
}

#[test]
fn exit_code_parser_is_conservative() {
    assert!(ToolOutputParser::parse_exit_code("exit code: 1").is_some());
    let out = ToolOutputParser::parse_exit_code("Exit status 127").unwrap();
    assert_eq!(out.facts[0].signature.as_deref(), Some("127"));
    assert!(ToolOutputParser::parse_exit_code("42").is_none());
}

#[test]
fn parse_any_reports_no_structure_honestly() {
    let out = ToolOutputParser::parse_any(Some("read_file"), "def f():\n    return 1\n");
    assert!(out.is_empty());
    assert!(out.parser.is_none());
    assert!(out.summary.contains("no structure detected"));
}

#[test]
fn parse_any_prefers_diff_for_diff_tools() {
    let raw = "+++ b/a.rs\n@@ -1 +1 @@\n-a\n+b\n";
    let out = ToolOutputParser::parse_any(Some("git_diff"), raw);
    assert_eq!(out.parser, Some("diff"));
}

#[test]
fn only_deterministic_sources_can_construct_a_fact() {
    let write = SymbolicWrite::new(FactKind::Function, "a::b").body("fn b() {}");
    let fact = SymbolicFact::from_deterministic_source(write, FactSource::TreeSitter, None);
    assert_eq!(fact.source, FactSource::TreeSitter);
    assert_eq!(fact.ast_hash.len(), 16);
    assert!(fact.render().contains("a::b"));
}

#[test]
fn fact_kinds_round_trip_through_the_database_encoding() {
    for kind in [
        FactKind::Function,
        FactKind::JsonField,
        FactKind::DiffHunk,
        FactKind::RegexMatch,
        FactKind::ToolExitCode,
    ] {
        assert_eq!(FactKind::parse(kind.as_str()).unwrap(), kind);
    }
    assert!(FactKind::parse("nope").is_err());
}

#[test]
fn facts_of_a_document_keep_its_paths() {
    let doc = Json::parse(r#"{"a":{"b":[1,2]},"c":null}"#).unwrap();
    let out = ToolOutputParser::facts_of_json(&doc).unwrap();
    assert!(out.facts.iter().any(|f| f.qualified_name == "c"));
    assert_eq!(out.len(), out.facts.len());
    assert!(ToolOutputParser::facts_of_json(&Json::parse("{}").unwrap()).is_none());
}

#[test]
fn a_change_of_any_part_is_a_difference() {
    let make = |sig: &str| {
        SymbolicWrite::new(FactKind::Method, "m::f")
            .at("src/a.rs")
            .lines(3, 9)
            .signature(sig)
            .in_parent("m")
            .into_fact(FactSource::ToolOutputParser, Some("p".into()))
    };
    let a = make("fn f()");
    assert!(!a.differs_from(&make("fn f()")));
    assert!(a.differs_from(&make("fn f(x: u8)")));
    assert_eq!(a.line_start, Some(3));
    assert_eq!(a.parent_name.as_deref(), Some("m"));
    assert!(FactKind::Method.is_code());
    assert!(!FactKind::CsvColumn.is_code());
    assert_eq!(FactKind::from_stored("struct"), FactKind::Struct);
    assert_eq!(FactSource::from_stored(FactSource::CommandName.as_str()), FactSource::CommandName);
}

#[test]
fn bodies_are_measured_together() {
    let counter = TokenCounter::new(CharTokenizer { chars_per_token: 4 });
    let out = ToolOutputParser::parse_csv("id,name\n1,a\n2,b\n").unwrap();
    let expected: usize = out
        .facts
        .iter()
        .map(|f| f.body.as_deref().map(|b| counter.count(b).get()).unwrap_or(0))
        .sum();
    assert_eq!(out.total_body_tokens(&counter), expected);
}
