//! Reading what a llama.cpp server reports.

use sakur4_core::json::Json;
use sakur4_core::llama::llama_cpp::{
    countable_position, parse_checkpoints, payload_key, server_address,
    LlamaCppBackend,
};
use sakur4_core::llama::CheckpointKind;

fn slot(text: &str) -> Json {
    Json::parse(text).expect("valid JSON")
}

#[test]
fn parses_bare_position_arrays() {
    let slot = slot(r#"{"checkpoints": [100, 900, 1200]}"#);
    let cps = parse_checkpoints(&slot);
    assert_eq!(cps.len(), 3);
    assert_eq!(cps[0].token_position, 100);
    assert_eq!(cps[0].kind, CheckpointKind::Internal);
}

#[test]
fn parses_object_arrays_and_sorts() {
    let slot = slot(
        r#"{"ctx_checkpoints": [
            {"pos": 1200, "size": 4096},
            {"pos": 100},
            {"pos": 900}
        ]}"#,
    );
    let cps = parse_checkpoints(&slot);
    assert_eq!(cps.iter().map(|c| c.token_position).collect::<Vec<_>>(), vec![100, 900, 1200]);
    assert_eq!(cps[2].size_bytes, Some(4096));
}

#[test]
fn parses_index_keyed_maps() {
    let slot = slot(r#"{"checkpoints": {"0": 500, "1": 1500}}"#);
    let cps = parse_checkpoints(&slot);
    assert_eq!(cps.iter().map(|c| c.token_position).collect::<Vec<_>>(), vec![500, 1500]);
}

#[test]
fn ignores_zero_and_missing_positions() {
    let slot = slot(r#"{"checkpoints": [0, {"pos": 0}, {"other": 1}, 700]}"#);
    let cps = parse_checkpoints(&slot);
    assert_eq!(cps.len(), 1);
    assert_eq!(cps[0].token_position, 700);
}

#[test]
fn tolerates_absent_ring() {
    assert!(parse_checkpoints(&slot("{}")).is_empty());
    assert!(parse_checkpoints(&slot(r#"{"checkpoints": "nonsense"}"#)).is_empty());
}

#[test]
fn the_server_address_prefers_what_is_given() {
    assert_eq!(server_address(Some("http://a"), Some("http://b")), "http://a");
    assert_eq!(server_address(None, Some("http://b")), "http://b");
    assert_eq!(server_address(None, None), "http://127.0.0.1:8080");
    assert_eq!(payload_key(0), Some("filename"));
    let two = slot(
        r#"[{"id": 0, "n_past": 3},
            {"id": 1, "prompt_tokens": 9223372036854775807, "n_decoded": 1}]"#,
    );
    assert!(countable_position(&two, "0"));
    assert!(!countable_position(&two, "1"));
    let state = LlamaCppBackend::new("http://a", "/tmp").slot_state("0", Some(&two)).unwrap();
    assert_eq!(state.n_past, 3);
}
