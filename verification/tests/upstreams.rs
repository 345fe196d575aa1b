//! Upstream streams and sidecars.

use claudex_bridge::digest::{hash_raw_fragments, hash_text};
use claudex_bridge::error::{InlineCompactionError, IoFailure, IoKind};
use claudex_bridge::sidecar::{
    inspect_sidecar, open_sidecar, seal_state, validate_state, FileFacts, SidecarEnvelope,
    SidecarState, MAX_STATE_BYTES,
};
use claudex_bridge::sse::parse_sse_events;
use claudex_bridge::upstream::{capture_upstream, sanitize_reasoning_context};
use serde_json::Value;

const COMPLETED: &str = r#"{"type":"response.completed","response":{"status":"completed","usage":{"input_tokens":100}}}"#;

fn raw_sse(events: &[&str]) -> Vec<u8> {
    let mut body = String::new();
    for event in events {
        body.push_str("data: ");
        body.push_str(event);
        body.push_str("\n\n");
    }
    body.into_bytes()
}

fn fault(events: &[&str]) -> &'static str {
    match capture_upstream(&raw_sse(events), 32_768) {
        Err(InlineCompactionError::InvalidUpstream(text)) => text,
        other => panic!("expected an invalid stream, got {other:?}"),
    }
}

#[test]
fn events_are_read_line_by_line() {
    assert_eq!(
        parse_sse_events(b"event: x\ndata: one\ndata:two\n\n: comment\n\ndata\n\ndata:  three\r\n\r\n"),
        vec!["one\ntwo", "", " three"]
    );
    assert!(parse_sse_events(b"").is_empty());
    assert!(parse_sse_events(b"data: unfinished\n").is_empty());
    assert_eq!(
        parse_sse_events(b"data: caf\xc3\xa9\n\ndata: \xff\n\n"),
        vec!["caf\u{e9}", "\u{fffd}"]
    );
}

#[test]
fn each_fault_of_a_stream_is_named() {
    let item = r#"{"type":"response.output_item.done","output_index":0,"item":{"type":"x"}}"#;
    assert_eq!(fault(&["nonsense"]), "SSE event data is not valid JSON");
    for kind in ["error", "response.error", "response.failed", "response.incomplete"] {
        let event = format!("{{\"type\":\"{kind}\"}}");
        assert_eq!(fault(&[&event]), "upstream emitted a terminal failure");
    }
    assert_eq!(
        fault(&[COMPLETED, item]),
        "output item arrived after response.completed"
    );
    assert_eq!(
        fault(&[COMPLETED, r#"{"type":"response.metadata"}"#]),
        "JSON payload arrived after response.completed"
    );
    for event in [
        r#"{"type":"response.output_item.done","output_index":0}"#,
        r#"{"type":"response.output_item.done","output_index":"0","item":{}}"#,
        r#"{"type":"response.output_item.done","output_index":1.5,"item":{}}"#,
        r#"{"type":"response.output_item.done","output_index":-1,"item":{}}"#,
        r#"{"type":"response.output_item.done","output_index":0,"item":{},"item":{}}"#,
        r#"{"type":"response.output_item.done","output_index":0,"output_index":0,"item":{}}"#,
    ] {
        assert_eq!(
            fault(&[event, COMPLETED]),
            "output_item.done is missing its raw item"
        );
    }
    for event in [
        r#"{"type":"response.output_item.done","item":{}}"#,
        r#"{"type":"response.output_item.done","output_index":null,"item":{}}"#,
    ] {
        assert_eq!(
            fault(&[event, COMPLETED]),
            "output_item.done has no valid output_index"
        );
    }
    assert_eq!(
        fault(&[item, item, COMPLETED]),
        "duplicate output_index in output_item.done"
    );
    assert_eq!(
        fault(&[r#"{"type":"response.completed","response":{"status":"failed"}}"#]),
        "response.completed carried a non-completed status"
    );
    assert_eq!(fault(&[item]), "expected exactly one response.completed");
    assert_eq!(
        fault(&[COMPLETED, COMPLETED]),
        "expected exactly one response.completed"
    );
    for event in [
        r#"{"type":"response.completed"}"#,
        r#"{"type":"response.completed","response":{"usage":{"input_tokens":-1}}}"#,
    ] {
        assert_eq!(
            fault(&[event]),
            "response.completed has no input token usage"
        );
    }
}

#[test]
fn an_output_index_is_a_number_or_absent() {
    let with_index = |index: &str| {
        format!(
            "{{\"type\":\"response.output_item.done\",\"output_index\":{index},\"item\":{{}}}}"
        )
    };
    for index in [
        r#"{"$serde_json::private::RawValue":"5"}"#,
        "\"5\"",
        "5.0",
        "-1",
        "[5]",
    ] {
        assert_eq!(
            fault(&[&with_index(index), COMPLETED]),
            "output_item.done is missing its raw item",
            "{index}"
        );
    }
    assert_eq!(
        fault(&[&with_index("null"), COMPLETED]),
        "output_item.done has no valid output_index"
    );
    let captured = capture_upstream(&raw_sse(&[&with_index("5"), COMPLETED]), 32_768).unwrap();
    assert_eq!(captured.items[0].output_index, 5);
}

#[test]
fn items_stand_by_index_with_their_exact_text() {
    let captured = capture_upstream(
        &raw_sse(&[
            r#"{"type":"response.created","response":{"reasoning":{"context":"first"}}}"#,
            r#"{"type":"response.output_item.done","output_index":7,"item":{ "type" : "b" }}"#,
            r#"{"item":null,"type":"response.output_item.done","output_index":2}"#,
            r#"{"type":"response.output_item.done","output_index":5,"item":{"type":"compaction"}}"#,
            r#"{"type":"response.other","response":{"reasoning":{"context":"not a name"}}}"#,
            COMPLETED,
            "[DONE]",
            "",
        ]),
        100,
    )
    .unwrap();
    let indexes: Vec<u64> = captured.items.iter().map(|item| item.output_index).collect();
    assert_eq!(indexes, vec![2, 5, 7]);
    assert_eq!(captured.items[0].raw, "null");
    assert_eq!(captured.items[2].raw, r#"{ "type" : "b" }"#);
    assert_eq!(captured.compaction_position, Some(1));
    assert_eq!(captured.compaction_count, 1);
    assert_eq!(captured.last_compaction_item_index, Some(5));
    assert_eq!(captured.usage_input_tokens, 100);
    assert_eq!(captured.anomaly_reason, None);
    assert_eq!(
        captured.effective_reasoning_context.as_deref(),
        Some("first")
    );
}

#[test]
fn thresholds_are_crossed_when_they_are_reached() {
    let body = raw_sse(&[COMPLETED]);
    assert_eq!(
        capture_upstream(&body, 100).unwrap().anomaly_reason,
        Some("threshold_crossed_without_compaction")
    );
    assert_eq!(capture_upstream(&body, 101).unwrap().anomaly_reason, None);
}

#[test]
fn reasoning_contexts_are_short_names() {
    assert_eq!(
        sanitize_reasoning_context("all_turns-2").as_deref(),
        Some("all_turns-2")
    );
    assert_eq!(sanitize_reasoning_context(""), None);
    assert_eq!(sanitize_reasoning_context("two words"), None);
    assert_eq!(sanitize_reasoning_context("caf\u{e9}"), None);
    let longest = "a".repeat(32);
    assert_eq!(sanitize_reasoning_context(&longest), Some(longest.clone()));
    assert_eq!(sanitize_reasoning_context(&"a".repeat(33)), None);
}

fn state() -> SidecarState {
    let compaction = r#"{"type":"compaction","encrypted_content":"opaque"}"#;
    let suffix = vec![
        r#"{"type":"message","role":"assistant","content":[]}"#.to_string(),
        r#"{"type":"future"}"#.to_string(),
    ];
    SidecarState {
        version: 1,
        lane_hash: "lane".to_string(),
        model: "gpt-5.6".to_string(),
        semantic_fingerprint: "meaning".to_string(),
        compact_threshold: 32_768,
        source_prefix_count: 2,
        source_prefix_sha256: "prefix".to_string(),
        last_output_match: vec![],
        compaction_item_json: compaction.to_string(),
        compaction_item_sha256: hash_text(compaction),
        opaque_sha256: hash_text("opaque"),
        raw_suffix_sha256: hash_raw_fragments(&suffix),
        raw_suffix_json: suffix,
        usage_input_tokens: 40_000,
        updated_at_ms: 9,
    }
}

fn state_fault(state: &SidecarState) -> &'static str {
    match validate_state(state) {
        Err(InlineCompactionError::InvalidState(text)) => text,
        other => panic!("expected an invalid state, got {other:?}"),
    }
}

fn with_compaction(raw: &str) -> SidecarState {
    let mut state = state();
    state.compaction_item_json = raw.to_string();
    state.compaction_item_sha256 = hash_text(raw);
    state
}

fn with_suffix(items: &[&str]) -> SidecarState {
    let mut state = state();
    state.raw_suffix_json = items.iter().map(|item| item.to_string()).collect();
    state.raw_suffix_sha256 = hash_raw_fragments(&state.raw_suffix_json);
    state
}

#[test]
fn each_fault_of_a_state_is_named() {
    assert!(validate_state(&state()).is_ok());
    let mut version = state();
    version.version = 2;
    assert_eq!(state_fault(&version), "unsupported sidecar version");
    assert_eq!(
        state_fault(&with_compaction("{")),
        "stored compaction item is not valid JSON"
    );
    assert_eq!(
        state_fault(&with_compaction(r#"{"type":"message"}"#)),
        "stored item is not a compaction item"
    );
    for item in [
        r#"{"type":"compaction"}"#,
        r#"{"type":"compaction","encrypted_content":""}"#,
        r#"{"type":"compaction","encrypted_content":7}"#,
    ] {
        assert_eq!(
            state_fault(&with_compaction(item)),
            "stored compaction item has no opaque payload"
        );
    }
    let mut opaque = state();
    opaque.opaque_sha256 = hash_text("other");
    assert_eq!(state_fault(&opaque), "stored compaction hashes do not match");
    let mut compaction = state();
    compaction.compaction_item_sha256 = String::new();
    assert_eq!(
        state_fault(&compaction),
        "stored compaction hashes do not match"
    );
    assert_eq!(
        state_fault(&with_suffix(&[r#"{"type":"message"}"#, "nonsense"])),
        "stored output item is not JSON"
    );
    assert_eq!(
        state_fault(&with_suffix(&[r#"{"type":"compaction","encrypted_content":"x"}"#])),
        "stored suffix contains an extra compaction item"
    );
    assert_eq!(state_fault(&with_suffix(&["{}"])), "stored output item has no type");
    for item in [
        r#"{"type":"message"}"#,
        r#"{"type":"message","role":"user","content":"text"}"#,
        r#"{"type":"function_call","call_id":"c","name":"n"}"#,
        r#"{"type":"reasoning","id":"r"}"#,
    ] {
        assert_eq!(
            state_fault(&with_suffix(&[item])),
            "stored known output item is incomplete"
        );
    }
    let mut suffix = state();
    suffix.raw_suffix_sha256 = String::new();
    assert_eq!(state_fault(&suffix), "stored suffix hash does not match");
}

#[test]
fn sealed_states_are_what_serde_json_reads_and_open_again() {
    let state = state();
    let text = seal_state(&state).unwrap();
    let envelope: Value = serde_json::from_str(&text).unwrap();
    let checksum = envelope["state_sha256"].as_str().unwrap().to_string();
    assert_eq!(checksum, state.checksum());
    assert_eq!(envelope["state"]["source_prefix_count"], 2);
    assert_eq!(envelope["state"]["compact_threshold"], 32_768);
    assert_eq!(
        envelope["state"]["raw_suffix_json"][1],
        r#"{"type":"future"}"#
    );
    assert!(text.starts_with(
        r#"{"state":{"version":1,"lane_hash":"lane","model":"gpt-5.6","semantic_fingerprint":"meaning","compact_threshold":32768,"source_prefix_count":2,"source_prefix_sha256":"prefix","last_output_match":[],"compaction_item_json":"#
    ));

    let opened = open_sidecar(Some(SidecarEnvelope {
        state: state.clone(),
        state_sha256: checksum,
    }))
    .unwrap();
    assert_eq!(opened.updated_at_ms, 9);

    assert!(matches!(
        open_sidecar(Some(SidecarEnvelope {
            state,
            state_sha256: "other".to_string(),
        })),
        Err(InlineCompactionError::InvalidState("sidecar checksum mismatch"))
    ));
    assert!(matches!(
        open_sidecar(None),
        Err(InlineCompactionError::InvalidState("sidecar JSON is corrupt"))
    ));
}

#[test]
fn sidecar_files_are_private_regular_and_not_too_large() {
    let good = FileFacts {
        regular: true,
        length: MAX_STATE_BYTES,
        mode: Some(0o100600),
    };
    assert!(inspect_sidecar(Ok(good)).unwrap());
    let unix_free = FileFacts { mode: None, ..good };
    assert!(inspect_sidecar(Ok(unix_free)).unwrap());
    let cases = [
        (FileFacts { regular: false, ..good }, "sidecar is not a regular file"),
        (
            FileFacts {
                length: MAX_STATE_BYTES + 1,
                ..good
            },
            "sidecar exceeds the size limit",
        ),
        (
            FileFacts {
                mode: Some(0o100640),
                ..good
            },
            "sidecar permissions are not 0600",
        ),
    ];
    for (file, expected) in cases {
        assert!(matches!(
            inspect_sidecar(Ok(file)),
            Err(InlineCompactionError::InvalidState(text)) if text == expected
        ));
    }
    let failure = |kind| IoFailure {
        kind,
        raw_os_error: None,
        on_linux: true,
        message: String::new(),
    };
    assert!(!inspect_sidecar(Err(failure(IoKind::NotFound))).unwrap());
    assert!(matches!(
        inspect_sidecar(Err(failure(IoKind::Other))),
        Err(InlineCompactionError::Io {
            operation: "inspecting sidecar",
            ..
        })
    ));
}
