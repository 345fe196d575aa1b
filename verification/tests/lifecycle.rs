//! The life of a lane, request by request, with the sidecars in memory.

use std::collections::BTreeMap;
use std::path::PathBuf;

use claudex_bridge::commit::{commit_response_report, CommitAction};
use claudex_bridge::config::InlineCompactionConfig;
use claudex_bridge::durability::{is_orphan_artifact, temp_sidecar_name, StateWrite, WriteProgress, WriteStep};
use claudex_bridge::encoding::encode_json;
use claudex_bridge::error::{InlineCompactionError, IoFailure, IoKind};
use claudex_bridge::json::{Json, Member};
use claudex_bridge::lanes::{state_lane_id, telemetry_lane_hash};
use claudex_bridge::mount::StateDirMountMetadata;
use claudex_bridge::parsing::parse_json;
use claudex_bridge::prepare::{prepare_request_with_recovery, PreparedInlineCompaction};
use claudex_bridge::recovery::StateRecoveryRegistry;
use claudex_bridge::replay::is_portable_compact_message;
use claudex_bridge::report::{CommitOutcome, CommitReport};
use claudex_bridge::request::{
    ResponsesContentPart, ResponsesContextManagement, ResponsesFunctionCallOutput,
    ResponsesInputItem, ResponsesRequest,
};
use claudex_bridge::sidecar::{FileFacts, SidecarState};
use claudex_bridge::stored::read_state;
use serde_json::Value;

/// A failure to inject: the step that fails, and the error number.
struct InjectedFailure {
    step: WriteStep,
    raw_os_error: Option<i32>,
}

#[derive(Default)]
struct Store {
    files: BTreeMap<String, Vec<u8>>,
    clock_ms: u64,
    failure: Option<InjectedFailure>,
    crash_after: Option<WriteStep>,
}

fn library_json(value: &Value) -> Json {
    parse_json(&value.to_string()).expect("a JSON value")
}

fn failure(kind: IoKind, raw_os_error: Option<i32>) -> IoFailure {
    IoFailure {
        kind,
        raw_os_error,
        on_linux: true,
        message: "injected test failure".to_string(),
    }
}

impl Store {
    fn now_ms(&mut self) -> u64 {
        self.clock_ms += 1;
        self.clock_ms
    }

    fn has(&self, prepared: &PreparedInlineCompaction) -> bool {
        self.files.contains_key(&prepared.state_file)
    }

    fn bytes(&self, prepared: &PreparedInlineCompaction) -> Vec<u8> {
        self.files[&prepared.state_file].clone()
    }

    fn read_state(&self, name: &str) -> Result<Option<SidecarState>, InlineCompactionError> {
        let found = match self.files.get(name) {
            Some(bytes) => Ok(FileFacts {
                regular: true,
                length: bytes.len() as u64,
                mode: Some(0o100600),
            }),
            None => Err(failure(IoKind::NotFound, Some(2))),
        };
        let contents = self.files.get(name).cloned();
        read_state(found, contents.ok_or(failure(IoKind::NotFound, Some(2))))
    }

    fn prepare_with_recovery(
        &mut self,
        config: &InlineCompactionConfig,
        session_id: &str,
        request: &mut ResponsesRequest,
        portable: bool,
        recovery: bool,
    ) -> Result<PreparedInlineCompaction, InlineCompactionError> {
        let name = format!("{}.json", telemetry_lane_hash(session_id));
        let stored = if recovery { None } else { self.read_state(&name)? };
        let prepared =
            prepare_request_with_recovery(config, session_id, request, portable, recovery, stored)?;
        assert_eq!(prepared.state_file, name);
        if prepared.clear_state {
            self.files.remove(&prepared.state_file);
        }
        Ok(prepared)
    }

    fn prepare(
        &mut self,
        config: &InlineCompactionConfig,
        session_id: &str,
        request: &mut ResponsesRequest,
        portable: bool,
    ) -> Result<PreparedInlineCompaction, InlineCompactionError> {
        self.prepare_with_recovery(config, session_id, request, portable, false)
    }

    fn write(
        &mut self,
        name: &str,
        state: &SidecarState,
        old_revision: Option<u64>,
    ) -> Result<Option<u64>, InlineCompactionError> {
        let previous = match self.files.get(name) {
            Some(bytes) => Ok(bytes.clone()),
            None => Err(failure(IoKind::NotFound, Some(2))),
        };
        let temp = temp_sidecar_name(7, 11);
        let mut write = StateWrite::begin(state, old_revision, previous, true)?;
        while write.step != WriteStep::Committed {
            let step = write.step;
            let injected = self
                .failure
                .as_ref()
                .is_some_and(|failure| failure.step == step);
            let outcome = if injected {
                let injected = self.failure.take().expect("an injected failure");
                Err(failure(IoKind::Other, injected.raw_os_error))
            } else {
                match step {
                    WriteStep::CreateTemp => {
                        self.files.insert(temp.clone(), Vec::new());
                    }
                    WriteStep::WriteTemp => {
                        let contents = write.contents.as_bytes().to_vec();
                        self.files.insert(temp.clone(), contents);
                    }
                    WriteStep::SwitchName => {
                        let contents = self.files.remove(&temp).expect("a temporary sidecar");
                        self.files.insert(name.to_string(), contents);
                    }
                    _ => {}
                }
                Ok(())
            };
            let at_ms = self.now_ms();
            match write.advance(outcome, at_ms) {
                WriteProgress::Continue(next) => write = next,
                WriteProgress::Failed(error) => {
                    self.files.remove(&temp);
                    return Err(error);
                }
                WriteProgress::Unconfirmed { write, source } => {
                    self.files.remove(&temp);
                    let failed_at_ms = self.now_ms();
                    return Err(write.indeterminate(
                        source,
                        at_ms,
                        failed_at_ms,
                        StateDirMountMetadata::default(),
                    ));
                }
            }
            if self.crash_after == Some(step) {
                return Ok(None);
            }
        }
        Ok(Some(write.size()))
    }

    fn report(
        &mut self,
        prepared: &PreparedInlineCompaction,
        upstream_sse: &[u8],
        visible: &[ResponsesInputItem],
    ) -> Result<CommitReport, InlineCompactionError> {
        let now_ms = self.now_ms();
        let plan = commit_response_report(prepared, upstream_sse, visible, now_ms)?;
        let state_bytes = match &plan.action {
            CommitAction::Write(state) => {
                let old_revision = prepared
                    .previous
                    .as_ref()
                    .map(|previous| previous.updated_at_ms);
                self.write(&prepared.state_file, state, old_revision)?
                    .unwrap_or(0)
            }
            CommitAction::Clear => {
                self.files.remove(&prepared.state_file);
                0
            }
            CommitAction::Measure => self
                .files
                .get(&prepared.state_file)
                .map_or(0, |bytes| bytes.len() as u64),
            CommitAction::Nothing => 0,
        };
        Ok(plan.finish(state_bytes))
    }

    fn commit(
        &mut self,
        prepared: &PreparedInlineCompaction,
        upstream_sse: &[u8],
        visible: &[ResponsesInputItem],
    ) -> Result<CommitOutcome, InlineCompactionError> {
        Ok(self.report(prepared, upstream_sse, visible)?.outcome)
    }
}

fn test_config() -> InlineCompactionConfig {
    InlineCompactionConfig::new(PathBuf::from("/state"), 32_768)
}

fn request(input: Vec<ResponsesInputItem>) -> ResponsesRequest {
    ResponsesRequest {
        model: "gpt-5.6".to_string(),
        instructions: Some("keep continuity".to_string()),
        input,
        tools: None,
        tool_choice: None,
        store: false,
        stream: true,
        parallel_tool_calls: true,
        included: None,
        client_metadata: None,
        service_tier: None,
        prompt_cache_key: Some("session".to_string()),
        text: parse_json(r#"{"verbosity":"low"}"#).unwrap(),
        reasoning: None,
        context_management: None,
        raw_input_override: None,
    }
}

fn wire_items(request: &ResponsesRequest) -> Vec<String> {
    match &request.raw_input_override {
        Some(items) => items.clone(),
        None => request
            .input
            .iter()
            .map(|item| encode_json(&item.to_json()))
            .collect(),
    }
}

fn wire_json_string(request: &ResponsesRequest) -> String {
    format!("{{\"input\":[{}]}}", wire_items(request).join(","))
}

fn wire_value(request: &ResponsesRequest) -> Value {
    serde_json::from_str(&wire_json_string(request)).unwrap()
}

fn wire_types(request: &ResponsesRequest) -> Vec<String> {
    wire_value(request)["input"]
        .as_array()
        .unwrap()
        .iter()
        .map(|item| item["type"].as_str().unwrap().to_string())
        .collect()
}

fn user(text: &str) -> ResponsesInputItem {
    ResponsesInputItem::Message {
        role: "user".to_string(),
        content: vec![ResponsesContentPart::InputText {
            text: text.to_string(),
        }],
    }
}

fn assistant(text: &str) -> ResponsesInputItem {
    ResponsesInputItem::Message {
        role: "assistant".to_string(),
        content: vec![ResponsesContentPart::OutputText {
            text: text.to_string(),
        }],
    }
}

fn portable_compact_message() -> ResponsesInputItem {
    user(
        "CRITICAL: Respond with TEXT ONLY. Do NOT call any tools.\n\nYour task is to create a detailed summary of the conversation so far.",
    )
}

fn call() -> ResponsesInputItem {
    function_call("call_1", "lookup", "{\"x\":1}")
}

fn function_call(call_id: &str, name: &str, arguments: &str) -> ResponsesInputItem {
    ResponsesInputItem::FunctionCall {
        call_id: call_id.to_string(),
        name: name.to_string(),
        arguments: arguments.to_string(),
    }
}

fn call_output() -> ResponsesInputItem {
    function_output("call_1", "tool-result")
}

fn function_output(call_id: &str, output: &str) -> ResponsesInputItem {
    ResponsesInputItem::FunctionCallOutput {
        call_id: call_id.to_string(),
        output: ResponsesFunctionCallOutput::Text(output.to_string()),
    }
}

fn reasoning(id: &str, encrypted_content: &str) -> ResponsesInputItem {
    ResponsesInputItem::Reasoning {
        id: id.to_string(),
        summary: Vec::new(),
        encrypted_content: encrypted_content.to_string(),
    }
}

fn sse(items: &[(usize, &str)], usage: u64) -> Vec<u8> {
    let mut body = String::new();
    for (index, item) in items {
        body.push_str(&format!(
            "data: {{\"type\":\"response.output_item.done\",\"output_index\":{index},\"item\":{item}}}\n\n"
        ));
    }
    body.push_str(&format!(
        "data: {{\"type\":\"response.completed\",\"response\":{{\"status\":\"completed\",\"reasoning\":{{\"context\":\"all_turns\"}},\"usage\":{{\"input_tokens\":{usage}}}}}}}\n\n"
    ));
    body.into_bytes()
}

fn raw_sse(events: &[&str]) -> Vec<u8> {
    let mut body = String::new();
    for event in events {
        body.push_str("data: ");
        body.push_str(event);
        body.push_str("\n\n");
    }
    body.into_bytes()
}

#[test]
fn replays_exact_raw_items_and_closes_a_tool_pair_after_restart() {
    let mut store = Store::default();
    let config = test_config();
    let mut first = request(vec![user("project-sentinel")]);
    let prepared = store.prepare(&config, "lane-a", &mut first, false).unwrap();
    assert!(first.raw_input_override.is_none());
    assert_eq!(
        first.context_management,
        Some(vec![ResponsesContextManagement::Compaction {
            compact_threshold: 32_768
        }])
    );

    let compact_raw = r#"{"type":"compaction", "encrypted_content":"opaque-A","future":7}"#;
    let future_raw = r#"{"type":"future_output", "opaque":{"order":[3,2,1]}}"#;
    let call_raw = r#"{"type":"function_call","call_id":"call_1","name":"lookup","arguments":"{\"x\":1}"}"#;
    let outcome = store
        .commit(
            &prepared,
            &sse(&[(0, compact_raw), (1, future_raw), (2, call_raw)], 40_000),
            &[call()],
        )
        .unwrap();
    assert_eq!(outcome, CommitOutcome::Created);

    let mut second = request(vec![user("project-sentinel"), call(), call_output()]);
    second.tool_choice = Some(Json::Text("required".to_string()));
    second.parallel_tool_calls = false;
    let prepared_after_restart = store.prepare(&config, "lane-a", &mut second, false).unwrap();
    assert!(prepared_after_restart.previous.is_some());
    let wire = wire_json_string(&second);
    assert!(wire.contains(compact_raw));
    assert!(wire.contains(future_raw));
    assert!(wire.contains(call_raw));
    assert_eq!(
        wire_types(&second),
        vec![
            "compaction",
            "future_output",
            "function_call",
            "function_call_output"
        ]
    );

    let message_raw = r#"{"type":"message","role":"assistant","content":[{"type":"output_text","text":"continuity-ok"}]}"#;
    assert_eq!(
        store
            .commit(
                &prepared_after_restart,
                &sse(&[(0, message_raw)], 700),
                &[assistant("continuity-ok")],
            )
            .unwrap(),
        CommitOutcome::Advanced
    );

    let mut third = request(vec![
        user("project-sentinel"),
        call(),
        call_output(),
        assistant("continuity-ok"),
        user("next"),
    ]);
    let prepared_third = store.prepare(&config, "lane-a", &mut third, false).unwrap();
    assert!(prepared_third.previous.is_some());
    let third_wire = wire_json_string(&third);
    assert!(third_wire.contains(compact_raw));
    assert!(third_wire.contains(future_raw));
    assert!(third_wire.contains(call_raw));
    assert!(third_wire.contains(message_raw));
    let third_value = wire_value(&third);
    assert_eq!(
        third_value["input"].as_array().unwrap().last().unwrap()["content"][0]["text"],
        "next"
    );
}

#[test]
fn transcript_branch_discards_the_old_lineage_without_replay() {
    let mut store = Store::default();
    let config = test_config();
    let mut first = request(vec![user("original")]);
    let prepared = store.prepare(&config, "lane-a", &mut first, false).unwrap();
    let compact_raw = r#"{"type":"compaction","encrypted_content":"opaque"}"#;
    store
        .commit(&prepared, &sse(&[(0, compact_raw)], 40_000), &[])
        .unwrap();

    let mut branch = request(vec![user("different branch")]);
    let prepared_branch = store.prepare(&config, "lane-a", &mut branch, false).unwrap();
    assert!(prepared_branch.previous.is_none());
    assert!(branch.raw_input_override.is_none());
    assert!(!store.has(&prepared_branch));
}

#[test]
fn encrypted_reasoning_and_post_compaction_suffix_replay_exactly() {
    let mut store = Store::default();
    let config = test_config();
    let mut first = request(vec![user("reasoning history")]);
    let prepared = store.prepare(&config, "lane-r", &mut first, false).unwrap();
    let compact_raw = r#"{"type":"compaction","encrypted_content":"opaque-reasoning"}"#;
    let reasoning_raw = r#"{"type":"reasoning", "id":"rs_1","summary":[],"encrypted_content":"encrypted-reasoning-A"}"#;
    let message_raw = r#"{"type":"message","role":"assistant","content":[{"type":"output_text","text":"reasoned"}]}"#;
    store
        .commit(
            &prepared,
            &sse(
                &[(0, compact_raw), (1, reasoning_raw), (2, message_raw)],
                40_000,
            ),
            &[
                reasoning("rs_1", "encrypted-reasoning-A"),
                assistant("reasoned"),
            ],
        )
        .unwrap();

    let mut second = request(vec![
        user("reasoning history"),
        reasoning("rs_1", "encrypted-reasoning-A"),
        assistant("reasoned"),
        user("continue"),
    ]);
    let prepared_second = store.prepare(&config, "lane-r", &mut second, false).unwrap();
    assert!(prepared_second.previous.is_some());
    let wire = wire_json_string(&second);
    assert!(wire.contains(compact_raw));
    assert!(wire.contains(reasoning_raw));
    assert!(wire.contains(message_raw));
    assert_eq!(
        wire_types(&second),
        vec!["compaction", "reasoning", "message", "message"]
    );
}

#[test]
fn omitted_reasoning_and_reserialized_tool_arguments_keep_the_lineage() {
    let mut store = Store::default();
    let config = test_config();
    let mut first = request(vec![user("coding history")]);
    let prepared = store.prepare(&config, "lane-coding", &mut first, false).unwrap();
    let compact_raw = r#"{"type":"compaction","encrypted_content":"opaque-coding"}"#;
    let reasoning_raw = r#"{"type":"reasoning","id":"rs_coding","summary":[],"encrypted_content":"encrypted-coding"}"#;
    let call_raw = r#"{"type":"function_call","call_id":"call_coding","name":"Edit","arguments":"{\"file_path\":\"pipeline.py\",\"old_string\":\"before\",\"new_string\":\"after\"}"}"#;
    let visible_call = function_call(
        "call_coding",
        "Edit",
        "{\"file_path\":\"pipeline.py\",\"old_string\":\"before\",\"new_string\":\"after\"}",
    );
    store
        .commit(
            &prepared,
            &sse(
                &[(0, compact_raw), (1, reasoning_raw), (2, call_raw)],
                40_000,
            ),
            &[
                reasoning("rs_coding", "encrypted-coding"),
                visible_call.clone(),
            ],
        )
        .unwrap();

    let echoed_call = function_call(
        "call_coding",
        "Edit",
        "{\"new_string\":\"after\",\"replace_all\":false,\"old_string\":\"before\",\"file_path\":\"pipeline.py\"}",
    );
    let output = function_output("call_coding", "edited");
    let mut second = request(vec![user("coding history"), echoed_call, output]);
    let prepared_second = store
        .prepare(&config, "lane-coding", &mut second, false)
        .unwrap();
    assert!(prepared_second.previous.is_some());
    assert_eq!(
        wire_types(&second),
        vec![
            "compaction",
            "reasoning",
            "function_call",
            "function_call_output"
        ]
    );
    let wire = wire_value(&second);
    assert_eq!(
        wire["input"]
            .as_array()
            .unwrap()
            .iter()
            .filter(|item| item["type"] == "reasoning")
            .count(),
        1
    );

    let next_call_raw = r#"{"type":"function_call","call_id":"call_next","name":"Bash","arguments":"{\"command\":\"pytest\"}"}"#;
    let next_call = function_call("call_next", "Bash", "{\"command\":\"pytest\"}");
    let report = store
        .report(
            &prepared_second,
            &sse(&[(0, next_call_raw)], 700),
            std::slice::from_ref(&next_call),
        )
        .unwrap();
    assert_eq!(report.outcome, CommitOutcome::Advanced);

    let historical_call_reformatted = function_call(
        "call_coding",
        "Edit",
        "{\n  \"new_string\": \"after\",\n  \"old_string\": \"before\",\n  \"file_path\": \"pipeline.py\"\n}",
    );
    let historical_output = function_output("call_coding", "edited");
    let next_output = function_output("call_next", "passed");
    let mut third = request(vec![
        user("coding history"),
        historical_call_reformatted,
        historical_output,
        next_call,
        next_output,
    ]);
    let prepared_third = store
        .prepare(&config, "lane-coding", &mut third, false)
        .unwrap();
    assert!(prepared_third.previous.is_some());
    assert!(wire_value(&third)["input"]
        .as_array()
        .unwrap()
        .iter()
        .any(|item| item["call_id"] == "call_next"));
}

#[test]
fn explicit_true_edit_default_still_changes_the_tool_branch() {
    let mut store = Store::default();
    let config = test_config();
    let mut first = request(vec![user("edit branch")]);
    let prepared = store
        .prepare(&config, "lane-edit-true", &mut first, false)
        .unwrap();
    let compact_raw = r#"{"type":"compaction","encrypted_content":"opaque-edit"}"#;
    let call_raw = r#"{"type":"function_call","call_id":"call_edit","name":"Edit","arguments":"{\"file_path\":\"pipeline.py\",\"old_string\":\"before\",\"new_string\":\"after\"}"}"#;
    let expected_call = function_call(
        "call_edit",
        "Edit",
        "{\"file_path\":\"pipeline.py\",\"old_string\":\"before\",\"new_string\":\"after\"}",
    );
    store
        .commit(
            &prepared,
            &sse(&[(0, compact_raw), (1, call_raw)], 40_000),
            &[expected_call],
        )
        .unwrap();

    let changed_call = function_call(
        "call_edit",
        "Edit",
        "{\"file_path\":\"pipeline.py\",\"old_string\":\"before\",\"new_string\":\"after\",\"replace_all\":true}",
    );
    let mut branch = request(vec![user("edit branch"), changed_call]);
    let prepared_branch = store
        .prepare(&config, "lane-edit-true", &mut branch, false)
        .unwrap();
    assert!(prepared_branch.previous.is_none());
    assert!(branch.raw_input_override.is_none());
}

#[test]
fn omitted_reasoning_cannot_anchor_a_different_tool_call_branch() {
    let mut store = Store::default();
    let config = test_config();
    let mut first = request(vec![user("branch history")]);
    let prepared = store
        .prepare(&config, "lane-branch-tool", &mut first, false)
        .unwrap();
    let compact_raw = r#"{"type":"compaction","encrypted_content":"opaque-branch"}"#;
    let call_raw =
        r#"{"type":"function_call","call_id":"call_expected","name":"Read","arguments":"{}"}"#;
    let expected_call = function_call("call_expected", "Read", "{}");
    store
        .commit(
            &prepared,
            &sse(&[(0, compact_raw), (1, call_raw)], 40_000),
            &[reasoning("rs_branch", "encrypted-branch"), expected_call],
        )
        .unwrap();

    let different_call = function_call("call_different", "Read", "{}");
    let mut branch = request(vec![user("branch history"), different_call]);
    let prepared_branch = store
        .prepare(&config, "lane-branch-tool", &mut branch, false)
        .unwrap();
    assert!(prepared_branch.previous.is_none());
    assert!(branch.raw_input_override.is_none());
}

#[test]
fn multiple_compactions_keep_only_the_latest_item_and_its_suffix() {
    let mut store = Store::default();
    let config = test_config();
    let mut first = request(vec![user("multi-compaction history")]);
    let prepared = store.prepare(&config, "lane-multi", &mut first, false).unwrap();
    let compact_a = r#"{"type":"compaction","encrypted_content":"opaque-a"}"#;
    let subsumed_message = r#"{"type":"message","role":"assistant","content":[{"type":"output_text","text":"subsumed"}]}"#;
    let compact_b = r#"{"type":"compaction", "encrypted_content":"opaque-b","future":9}"#;
    let reasoning_raw = r#"{"type":"reasoning","id":"rs_latest","summary":[],"encrypted_content":"reasoning-latest"}"#;
    let suffix_message = r#"{"type":"message","role":"assistant","content":[{"type":"output_text","text":"latest"}]}"#;
    let call_raw = r#"{"type":"function_call","call_id":"call_1","name":"lookup","arguments":"{\"x\":1}"}"#;

    let report = store
        .report(
            &prepared,
            &sse(
                &[
                    (0, compact_a),
                    (1, subsumed_message),
                    (2, compact_b),
                    (3, reasoning_raw),
                    (4, suffix_message),
                    (5, call_raw),
                ],
                40_000,
            ),
            &[assistant("subsumed"), assistant("latest"), call()],
        )
        .unwrap();
    assert_eq!(report.outcome, CommitOutcome::Created);
    assert_eq!(report.compaction_count, 2);
    assert_eq!(report.last_item_index, Some(2));
    assert_eq!(report.suffix_count, 3);
    assert_eq!(report.usage_input_tokens, 40_000);
    assert!(report.state_bytes > 0);
    assert_eq!(report.state_bytes, store.bytes(&prepared).len() as u64);
    assert_eq!(report.lane_hash.len(), 64);
    assert_eq!(
        report.effective_reasoning_context.as_deref(),
        Some("all_turns")
    );
    let sidecar = String::from_utf8(store.bytes(&prepared)).unwrap();
    assert!(!sidecar.contains("subsumed"));
    assert!(!sidecar.contains("opaque-a"));
    assert!(!sidecar.contains("multi-compaction history"));
    assert_eq!(sidecar.matches("latest\\\"}]}").count(), 1);

    let mut second = request(vec![
        user("multi-compaction history"),
        assistant("subsumed"),
        assistant("latest"),
        call(),
        call_output(),
        user("continue"),
    ]);
    let prepared_second = store.prepare(&config, "lane-multi", &mut second, false).unwrap();
    assert!(prepared_second.previous.is_some());
    let wire = wire_json_string(&second);
    assert!(!wire.contains("opaque-a"));
    assert!(!wire.contains("subsumed"));
    assert!(wire.contains(compact_b));
    assert!(wire.contains(reasoning_raw));
    assert!(wire.contains(suffix_message));
    assert!(wire.contains(call_raw));

    assert_eq!(
        wire_types(&second),
        vec![
            "compaction",
            "reasoning",
            "message",
            "function_call",
            "function_call_output",
            "message"
        ]
    );
    assert_eq!(
        wire_value(&second)["input"].as_array().unwrap().last().unwrap()["content"][0]["text"],
        "continue"
    );
}

#[test]
fn output_indexes_define_replay_order_and_parallel_tool_pairs_stay_closed() {
    let mut store = Store::default();
    let config = test_config();
    let mut first = request(vec![user("parallel history")]);
    let prepared = store
        .prepare(&config, "lane-parallel", &mut first, false)
        .unwrap();
    let compact = r#"{"type":"compaction","encrypted_content":"opaque-parallel"}"#;
    let call_a = r#"{"type":"function_call","call_id":"call_a","name":"lookup","arguments":"{\"x\":1}"}"#;
    let call_b = r#"{"type":"function_call","call_id":"call_b","name":"lookup","arguments":"{\"x\":2}"}"#;
    let typed_call_a = function_call("call_a", "lookup", "{\"x\":1}");
    let typed_call_b = function_call("call_b", "lookup", "{\"x\":2}");

    let report = store
        .report(
            &prepared,
            &sse(&[(2, call_b), (0, compact), (1, call_a)], 40_000),
            &[typed_call_a.clone(), typed_call_b.clone()],
        )
        .unwrap();
    assert_eq!(report.last_item_index, Some(0));
    assert_eq!(report.suffix_count, 2);

    let output_a = function_output("call_a", "result-a");
    let output_b = function_output("call_b", "result-b");
    let mut second = request(vec![
        user("parallel history"),
        typed_call_a,
        typed_call_b,
        output_a,
        output_b,
        user("continue"),
    ]);
    store
        .prepare(&config, "lane-parallel", &mut second, false)
        .unwrap();
    assert_eq!(
        wire_types(&second),
        vec![
            "compaction",
            "function_call",
            "function_call",
            "function_call_output",
            "function_call_output",
            "message"
        ]
    );
    let wire = wire_value(&second);
    let input = wire["input"].as_array().unwrap();
    assert_eq!(input[1]["call_id"], "call_a");
    assert_eq!(input[2]["call_id"], "call_b");
    assert_eq!(input[3]["call_id"], "call_a");
    assert_eq!(input[4]["call_id"], "call_b");
}

#[test]
fn malformed_upstream_protocol_matrix_fails_closed() {
    let mut store = Store::default();
    let config = test_config();
    let mut request_body = request(vec![user("protocol")]);
    let prepared = store
        .prepare(&config, "lane-protocol", &mut request_body, false)
        .unwrap();
    let item = r#"{"type":"response.output_item.done","output_index":0,"item":{"type":"message","role":"assistant","content":[]}}"#;
    let completed_low = r#"{"type":"response.completed","response":{"status":"completed","usage":{"input_tokens":100}}}"#;
    let missing_usage =
        r#"{"type":"response.completed","response":{"status":"completed","usage":{}}}"#;
    let failed_completed = r#"{"type":"response.completed","response":{"status":"failed","usage":{"input_tokens":100}}}"#;
    let cases = vec![
        raw_sse(&[r#"{"type":"response.failed"}"#]),
        raw_sse(&[r#"{"type":"response.incomplete"}"#]),
        raw_sse(&[failed_completed]),
        raw_sse(&[item]),
        raw_sse(&[missing_usage]),
        raw_sse(&[completed_low, completed_low]),
        raw_sse(&[completed_low, item]),
        raw_sse(&[item, item, completed_low]),
        raw_sse(&[
            r#"{"type":"response.output_item.done","item":{"type":"message","role":"assistant","content":[]}}"#,
            completed_low,
        ]),
    ];
    for body in cases {
        assert!(matches!(
            store.commit(&prepared, &body, &[]),
            Err(InlineCompactionError::InvalidUpstream(_))
        ));
    }
}

#[test]
fn accepts_compaction_with_post_prune_usage_below_threshold() {
    let mut store = Store::default();
    let config = test_config();
    let mut request_body = request(vec![user("portable compact history")]);
    let prepared = store
        .prepare(&config, "lane-post-prune", &mut request_body, false)
        .unwrap();
    let compact = r#"{"type":"compaction","encrypted_content":"opaque-post-prune"}"#;

    let report = store
        .report(&prepared, &sse(&[(0, compact)], 14_000), &[])
        .expect("post-prune usage below the trigger threshold is valid");

    assert_eq!(report.outcome, CommitOutcome::Created);
    assert_eq!(report.compaction_count, 1);
    assert_eq!(report.usage_input_tokens, 14_000);
}

#[test]
fn missing_compaction_preserves_previous_state_but_missing_usage_fails_closed() {
    let mut store = Store::default();
    let config = test_config();
    let mut first = request(vec![user("input")]);
    let prepared = store.prepare(&config, "lane-a", &mut first, false).unwrap();
    let no_state = store.report(&prepared, &sse(&[], 40_000), &[]).unwrap();
    assert_eq!(no_state.outcome, CommitOutcome::NoState);
    assert_eq!(
        no_state.anomaly_reason,
        Some("threshold_crossed_without_compaction")
    );
    assert!(!store.has(&prepared));

    let compact_a = r#"{"type":"compaction","encrypted_content":"opaque-a"}"#;
    store
        .commit(&prepared, &sse(&[(0, compact_a)], 40_000), &[])
        .unwrap();
    let committed_state = store.bytes(&prepared);

    let mut second = request(vec![user("input"), user("next")]);
    let prepared_second = store.prepare(&config, "lane-a", &mut second, false).unwrap();
    assert!(prepared_second.previous.is_some());
    let message = r#"{"type":"message","role":"assistant","content":[{"type":"output_text","text":"ok"}]}"#;
    let preserved = store
        .report(&prepared_second, &sse(&[(0, message)], 40_000), &[])
        .unwrap();
    assert_eq!(preserved.outcome, CommitOutcome::Preserved);
    assert_eq!(
        preserved.anomaly_reason,
        Some("threshold_crossed_without_compaction")
    );
    assert_eq!(preserved.state_bytes, committed_state.len() as u64);
    assert_eq!(store.bytes(&prepared), committed_state);

    let missing_usage = b"data: {\"type\":\"response.completed\",\"response\":{\"status\":\"completed\",\"usage\":{}}}\n\n";
    assert!(matches!(
        store.commit(&prepared_second, missing_usage, &[]),
        Err(InlineCompactionError::InvalidUpstream(_))
    ));

    let incomplete_message = r#"{"type":"message"}"#;
    assert!(matches!(
        store.commit(
            &prepared,
            &sse(&[(0, compact_a), (1, incomplete_message)], 40_000),
            &[]
        ),
        Err(InlineCompactionError::InvalidState(_))
    ));
}

#[test]
fn agent_lanes_persist_and_replay_only_their_own_sidecars() {
    let mut store = Store::default();
    let config = test_config();
    let lane_a = state_lane_id(Some("session-a"), Some("agent-a")).unwrap();
    let lane_b = state_lane_id(Some("session-a"), Some("agent-b")).unwrap();

    let mut first_a = request(vec![user("shared history")]);
    let mut first_b = request(vec![user("shared history")]);
    let prepared_a = store.prepare(&config, &lane_a, &mut first_a, false).unwrap();
    let prepared_b = store.prepare(&config, &lane_b, &mut first_b, false).unwrap();
    assert_ne!(prepared_a.state_file, prepared_b.state_file);

    let compact_a = r#"{"type":"compaction","encrypted_content":"agent-a-only"}"#;
    let compact_b = r#"{"type":"compaction","encrypted_content":"agent-b-only"}"#;
    let message_a = r#"{"type":"message","role":"assistant","content":[{"type":"output_text","text":"answer-a"}]}"#;
    let message_b = r#"{"type":"message","role":"assistant","content":[{"type":"output_text","text":"answer-b"}]}"#;
    store
        .commit(
            &prepared_a,
            &sse(&[(0, compact_a), (1, message_a)], 40_000),
            &[assistant("answer-a")],
        )
        .unwrap();
    store
        .commit(
            &prepared_b,
            &sse(&[(0, compact_b), (1, message_b)], 40_000),
            &[assistant("answer-b")],
        )
        .unwrap();

    let mut next_a = request(vec![
        user("shared history"),
        assistant("answer-a"),
        user("continue-a"),
    ]);
    let mut next_b = request(vec![
        user("shared history"),
        assistant("answer-b"),
        user("continue-b"),
    ]);
    store.prepare(&config, &lane_a, &mut next_a, false).unwrap();
    store.prepare(&config, &lane_b, &mut next_b, false).unwrap();
    let wire_a = wire_json_string(&next_a);
    let wire_b = wire_json_string(&next_b);
    assert!(wire_a.contains("agent-a-only"));
    assert!(wire_a.contains("continue-a"));
    assert!(!wire_a.contains("agent-b-only"));
    assert!(wire_b.contains("agent-b-only"));
    assert!(wire_b.contains("continue-b"));
    assert!(!wire_b.contains("agent-a-only"));
}

#[test]
fn corrupt_sidecar_fails_closed() {
    let mut store = Store::default();
    let config = test_config();
    let mut first = request(vec![user("input")]);
    let prepared = store.prepare(&config, "lane-a", &mut first, false).unwrap();
    let compact_raw = r#"{"type":"compaction","encrypted_content":"opaque"}"#;
    store
        .commit(&prepared, &sse(&[(0, compact_raw)], 40_000), &[])
        .unwrap();
    store
        .files
        .insert(prepared.state_file.clone(), b"not-json".to_vec());

    let mut next = request(vec![user("input"), user("next")]);
    assert!(matches!(
        store.prepare(&config, "lane-a", &mut next, false),
        Err(InlineCompactionError::InvalidState(_))
    ));
}

#[test]
fn portable_compact_boundary_starts_a_new_lineage() {
    let mut store = Store::default();
    let config = test_config();
    let mut first = request(vec![user("input")]);
    let prepared = store.prepare(&config, "lane-a", &mut first, false).unwrap();
    let compact_raw = r#"{"type":"compaction","encrypted_content":"opaque"}"#;
    store
        .commit(&prepared, &sse(&[(0, compact_raw)], 40_000), &[])
        .unwrap();
    let old_state = store.bytes(&prepared);

    let mut portable = request(vec![user("input"), user("portable summary")]);
    portable.instructions = Some("portable summary instructions".to_string());
    let prepared_portable = store.prepare(&config, "lane-a", &mut portable, true).unwrap();
    assert!(prepared_portable.previous.is_some());
    assert!(prepared_portable.portable_compact_boundary());
    let replay = portable.raw_input_override.as_ref().unwrap();
    assert_eq!(replay.len(), 2);
    assert_eq!(
        serde_json::from_str::<Value>(&replay[0]).unwrap()["type"],
        "compaction"
    );
    assert_eq!(
        serde_json::from_str::<Value>(&replay[1]).unwrap()["type"],
        "message"
    );
    assert_eq!(store.bytes(&prepared_portable), old_state);

    let portable_compaction = r#"{"type":"compaction","encrypted_content":"portable-only-opaque"}"#;
    let report = store
        .report(
            &prepared_portable,
            &sse(&[(0, portable_compaction)], 40_000),
            &[],
        )
        .unwrap();
    assert_eq!(report.outcome, CommitOutcome::NoState);
    assert_eq!(report.compaction_count, 1);
    assert_eq!(
        report.invalidation_reason,
        Some("portable_compact_new_lineage")
    );
    assert!(!store.has(&prepared_portable));
}

#[test]
fn portable_compact_replays_only_the_retained_history_before_replaced_tail() {
    let mut store = Store::default();
    let config = test_config();
    let compact_raw = r#"{"type":"compaction","encrypted_content":"opaque-history"}"#;
    let retained_output_raw = r#"{"type":"message","role":"assistant","content":[{"type":"output_text","text":"retained-output"}]}"#;
    let omitted_output_raw = r#"{"type":"message","role":"assistant","content":[{"type":"output_text","text":"omitted-output"}]}"#;

    let mut first = request(vec![user("old-history")]);
    let prepared_first = store
        .prepare(&config, "lane-portable-tail", &mut first, false)
        .unwrap();
    store
        .commit(
            &prepared_first,
            &sse(&[(0, compact_raw), (1, retained_output_raw)], 40_000),
            &[assistant("retained-output")],
        )
        .unwrap();

    let mut latest = request(vec![
        user("old-history"),
        assistant("retained-output"),
        user("omitted-user"),
    ]);
    let prepared_latest = store
        .prepare(&config, "lane-portable-tail", &mut latest, false)
        .unwrap();
    store
        .commit(
            &prepared_latest,
            &sse(&[(0, omitted_output_raw)], 1_000),
            &[assistant("omitted-output")],
        )
        .unwrap();
    let old_state = store.bytes(&prepared_latest);

    let mut portable = request(vec![
        user("old-history"),
        assistant("retained-output"),
        portable_compact_message(),
    ]);
    portable.instructions = Some("portable summary instructions".to_string());
    let prepared_portable = store
        .prepare(&config, "lane-portable-tail", &mut portable, true)
        .unwrap();
    assert!(prepared_portable.previous.is_some());
    assert_eq!(store.bytes(&prepared_portable), old_state);

    let wire = wire_value(&portable);
    let input = wire["input"].as_array().unwrap();
    assert_eq!(input.len(), 3);
    assert_eq!(input[0]["type"], "compaction");
    assert_eq!(input[1]["content"][0]["text"], "retained-output");
    assert!(is_portable_compact_message(&library_json(&input[2])));
    let encoded = serde_json::to_string(input).unwrap();
    assert!(!encoded.contains("omitted-user"));
    assert!(!encoded.contains("omitted-output"));

    let portable_compaction = r#"{"type":"compaction","encrypted_content":"portable-only-opaque"}"#;
    let report = store
        .report(
            &prepared_portable,
            &sse(&[(0, portable_compaction)], 40_000),
            &[],
        )
        .unwrap();
    assert_eq!(report.outcome, CommitOutcome::NoState);
    assert!(!store.has(&prepared_portable));
}

#[test]
fn portable_compact_tail_reconciliation_fails_closed_on_changed_history() {
    let mut store = Store::default();
    let config = test_config();
    let mut first = request(vec![user("original-history")]);
    let prepared_first = store
        .prepare(&config, "lane-portable-branch", &mut first, false)
        .unwrap();
    let compact_raw = r#"{"type":"compaction","encrypted_content":"opaque-branch"}"#;
    let retained_output_raw = r#"{"type":"message","role":"assistant","content":[{"type":"output_text","text":"retained-output"}]}"#;
    store
        .commit(
            &prepared_first,
            &sse(&[(0, compact_raw), (1, retained_output_raw)], 40_000),
            &[assistant("retained-output")],
        )
        .unwrap();

    let mut latest = request(vec![
        user("original-history"),
        assistant("retained-output"),
        user("latest-user"),
    ]);
    let prepared_latest = store
        .prepare(&config, "lane-portable-branch", &mut latest, false)
        .unwrap();
    let latest_output_raw = r#"{"type":"message","role":"assistant","content":[{"type":"output_text","text":"latest-output"}]}"#;
    store
        .commit(
            &prepared_latest,
            &sse(&[(0, latest_output_raw)], 1_000),
            &[assistant("latest-output")],
        )
        .unwrap();

    let mut divergent = request(vec![
        user("different-history"),
        assistant("retained-output"),
        portable_compact_message(),
    ]);
    divergent.instructions = Some("portable summary instructions".to_string());
    let prepared_divergent = store
        .prepare(&config, "lane-portable-branch", &mut divergent, true)
        .unwrap();
    assert!(prepared_divergent.previous.is_none());
    assert!(divergent.raw_input_override.is_none());
    assert_eq!(
        prepared_divergent.state_invalidation_reason,
        Some("transcript_mismatch")
    );
    assert!(!store.has(&prepared_divergent));
}

#[test]
fn portable_compact_failure_keeps_previous_state_for_retry() {
    let mut store = Store::default();
    let config = test_config();
    let mut first = request(vec![user("input")]);
    let prepared = store.prepare(&config, "lane-a", &mut first, false).unwrap();
    let compact_raw = r#"{"type":"compaction","encrypted_content":"opaque-before-retry"}"#;
    store
        .commit(&prepared, &sse(&[(0, compact_raw)], 40_000), &[])
        .unwrap();
    let old_state = store.bytes(&prepared);

    let mut portable = request(vec![user("input"), user("portable summary")]);
    portable.instructions = Some("portable summary instructions".to_string());
    let prepared_portable = store.prepare(&config, "lane-a", &mut portable, true).unwrap();
    assert!(prepared_portable.previous.is_some());
    assert!(wire_json_string(&portable).contains("opaque-before-retry"));
    drop(prepared_portable);
    assert_eq!(store.bytes(&prepared), old_state);

    let mut retry = request(vec![user("input"), user("portable summary")]);
    retry.instructions = Some("portable summary instructions".to_string());
    let prepared_retry = store.prepare(&config, "lane-a", &mut retry, true).unwrap();
    assert!(prepared_retry.previous.is_some());
    assert!(wire_json_string(&retry).contains("opaque-before-retry"));
    assert_eq!(store.bytes(&prepared), old_state);
}

#[test]
fn crash_recovery_matrix_preserves_or_safely_discards_lineage() {
    let points = [
        (Some(WriteStep::CreateTemp), true),
        (Some(WriteStep::WriteTemp), true),
        (Some(WriteStep::SyncTemp), true),
        (Some(WriteStep::SwitchName), false),
        (None, false),
    ];
    for (point, keeps_old) in points {
        let mut store = Store::default();
        let config = test_config();
        let mut first = request(vec![user("crash history")]);
        let prepared = store.prepare(&config, "lane-crash", &mut first, false).unwrap();
        let compact = r#"{"type":"compaction","encrypted_content":"opaque-before-crash"}"#;
        let first_message = r#"{"type":"message","role":"assistant","content":[{"type":"output_text","text":"first-output"}]}"#;
        store
            .commit(
                &prepared,
                &sse(&[(0, compact), (1, first_message)], 40_000),
                &[assistant("first-output")],
            )
            .unwrap();

        let mut second = request(vec![
            user("crash history"),
            assistant("first-output"),
            user("second-turn"),
        ]);
        let prepared = store.prepare(&config, "lane-crash", &mut second, false).unwrap();
        let second_message = r#"{"type":"message","role":"assistant","content":[{"type":"output_text","text":"second-output"}]}"#;
        store.crash_after = point;
        let report = store
            .report(
                &prepared,
                &sse(&[(0, second_message)], 700),
                &[assistant("second-output")],
            )
            .unwrap();
        assert_eq!(report.outcome, CommitOutcome::Advanced);

        store.files.retain(|name, _| !is_orphan_artifact(name));
        assert_eq!(store.files.len(), 1, "orphans remained after {point:?}");

        let mut retry = request(vec![
            user("crash history"),
            assistant("first-output"),
            user("second-turn"),
        ]);
        let prepared = store.prepare(&config, "lane-crash", &mut retry, false).unwrap();
        if keeps_old {
            assert!(prepared.previous.is_some(), "old state lost at {point:?}");
            let replay = wire_json_string(&retry);
            assert!(replay.contains("opaque-before-crash"));
            assert!(replay.contains("second-turn"));
        } else {
            assert!(prepared.previous.is_none(), "new state replayed at {point:?}");
            assert!(retry.raw_input_override.is_none());
            assert_eq!(
                prepared.state_invalidation_reason,
                Some("transcript_mismatch")
            );
        }
    }
}

#[test]
fn temporary_sidecar_fsync_failure_preserves_previous_state_bytes() {
    let mut store = Store::default();
    let config = test_config();
    let mut first = request(vec![user("durable history")]);
    let prepared = store.prepare(&config, "lane-fsync", &mut first, false).unwrap();
    let compact = r#"{"type":"compaction","encrypted_content":"durable-old"}"#;
    let first_message = r#"{"type":"message","role":"assistant","content":[{"type":"output_text","text":"first-output"}]}"#;
    store
        .commit(
            &prepared,
            &sse(&[(0, compact), (1, first_message)], 40_000),
            &[assistant("first-output")],
        )
        .unwrap();
    let old_state = store.bytes(&prepared);

    let mut second = request(vec![
        user("durable history"),
        assistant("first-output"),
        user("second-turn"),
    ]);
    let prepared_second = store
        .prepare(&config, "lane-fsync", &mut second, false)
        .unwrap();
    let second_message = r#"{"type":"message","role":"assistant","content":[{"type":"output_text","text":"second-output"}]}"#;
    store.failure = Some(InjectedFailure {
        step: WriteStep::SyncTemp,
        raw_os_error: None,
    });
    let error = store
        .report(
            &prepared_second,
            &sse(&[(0, second_message)], 700),
            &[assistant("second-output")],
        )
        .unwrap_err();

    assert!(matches!(
        error,
        InlineCompactionError::Io {
            operation: "syncing temporary sidecar",
            ..
        }
    ));
    assert_eq!(store.bytes(&prepared_second), old_state);
    assert!(store.files.keys().all(|name| !is_orphan_artifact(name)));
}

#[test]
fn directory_fsync_failure_is_indeterminate_and_requires_exact_recovery() {
    let mut store = Store::default();
    let config = test_config();
    let mut first = request(vec![user("durable history")]);
    let prepared = store
        .prepare(&config, "lane-dir-fsync", &mut first, false)
        .unwrap();
    let compact = r#"{"type":"compaction","encrypted_content":"durable-old"}"#;
    let first_message = r#"{"type":"message","role":"assistant","content":[{"type":"output_text","text":"first-output"}]}"#;
    store
        .commit(
            &prepared,
            &sse(&[(0, compact), (1, first_message)], 40_000),
            &[assistant("first-output")],
        )
        .unwrap();
    let old_state_bytes = store.bytes(&prepared);

    let mut second = request(vec![
        user("durable history"),
        assistant("first-output"),
        user("second-turn"),
    ]);
    let prepared_second = store
        .prepare(&config, "lane-dir-fsync", &mut second, false)
        .unwrap();
    let old_revision = prepared_second
        .previous
        .as_ref()
        .expect("old committed state")
        .updated_at_ms;
    let second_message = r#"{"type":"message","role":"assistant","content":[{"type":"output_text","text":"second-output"}]}"#;
    store.failure = Some(InjectedFailure {
        step: WriteStep::SyncDirectory,
        raw_os_error: Some(5),
    });
    let error = store
        .report(
            &prepared_second,
            &sse(&[(0, second_message)], 700),
            &[assistant("second-output")],
        )
        .unwrap_err();

    let details = error
        .durability_details()
        .expect("post-rename directory fsync failure must be distinct");
    assert_eq!(details.old_revision, Some(old_revision));
    assert!(details.candidate_revision > old_revision);
    assert_eq!(details.errno, Some(5));
    assert!(details.temp_fsynced_at_ms > 0);
    assert!(details.rename_at_ms >= details.temp_fsynced_at_ms);
    assert!(details.directory_fsync_failed_at_ms >= details.directory_fsync_started_at_ms);
    assert!(error.degrades_state_backend());
    assert_eq!(error.reason_code(), "state_durability_indeterminate");
    assert_eq!(
        prepared_second
            .previous
            .as_ref()
            .expect("old committed state remains in request memory")
            .updated_at_ms,
        old_revision
    );

    let current_state_bytes = store.bytes(&prepared_second);
    assert_ne!(current_state_bytes, old_state_bytes);
    let current_state = store
        .read_state(&prepared_second.state_file)
        .unwrap()
        .expect("namespace now exposes candidate state");
    assert_eq!(current_state.updated_at_ms, details.candidate_revision);
    assert!(current_state
        .raw_suffix_json
        .iter()
        .any(|item| item.contains("second-output")));

    let mut registry = StateRecoveryRegistry::default();
    registry.mark_from_error(prepared_second.lane_hash(), &error);
    assert!(registry.recovery_required(prepared_second.lane_hash()));
    assert!(registry.backend_degraded());

    let mut old_transcript = request(vec![
        user("durable history"),
        assistant("first-output"),
        user("second-turn"),
    ]);
    let recovery = store
        .prepare_with_recovery(
            &config,
            "lane-dir-fsync",
            &mut old_transcript,
            false,
            registry.recovery_required(prepared_second.lane_hash()),
        )
        .unwrap();
    assert!(recovery.previous.is_none());
    assert!(old_transcript.raw_input_override.is_none());
    assert_eq!(
        recovery.state_invalidation_reason,
        Some("state_recovery_required")
    );
    let recovery_wire = wire_json_string(&old_transcript);
    assert!(recovery_wire.contains("second-turn"));
    assert!(!recovery_wire.contains("durable-old"));
    assert!(!recovery_wire.contains("second-output"));
    assert_eq!(store.bytes(&recovery), current_state_bytes);

    let recovered_compact = r#"{"type":"compaction","encrypted_content":"durable-recovered"}"#;
    let recovered_message = r#"{"type":"message","role":"assistant","content":[{"type":"output_text","text":"recovered-output"}]}"#;
    let recovered_report = store
        .report(
            &recovery,
            &sse(&[(0, recovered_compact), (1, recovered_message)], 40_000),
            &[assistant("recovered-output")],
        )
        .unwrap();
    assert_eq!(recovered_report.outcome, CommitOutcome::Created);
    registry.note_durable_commit(&recovered_report);
    assert!(!registry.recovery_required(prepared_second.lane_hash()));
}

#[test]
fn restart_outcomes_use_transcript_fingerprint_before_replay() {
    let mut store = Store::default();
    let config = test_config();
    let mut first = request(vec![user("restart history")]);
    let prepared = store
        .prepare(&config, "lane-restart-outcomes", &mut first, false)
        .unwrap();
    let compact = r#"{"type":"compaction","encrypted_content":"restart-old"}"#;
    let first_message = r#"{"type":"message","role":"assistant","content":[{"type":"output_text","text":"first-output"}]}"#;
    store
        .commit(
            &prepared,
            &sse(&[(0, compact), (1, first_message)], 40_000),
            &[assistant("first-output")],
        )
        .unwrap();
    let old_state = store.bytes(&prepared);

    let old_transcript_items = || {
        vec![
            user("restart history"),
            assistant("first-output"),
            user("second-turn"),
        ]
    };
    let mut second = request(old_transcript_items());
    let prepared_second = store
        .prepare(&config, "lane-restart-outcomes", &mut second, false)
        .unwrap();
    let second_message = r#"{"type":"message","role":"assistant","content":[{"type":"output_text","text":"second-output"}]}"#;
    store
        .commit(
            &prepared_second,
            &sse(&[(0, second_message)], 700),
            &[assistant("second-output")],
        )
        .unwrap();
    let new_state = store.bytes(&prepared_second);
    assert_ne!(new_state, old_state);

    store.files.insert(prepared.state_file.clone(), old_state);
    let mut old_visible = request(old_transcript_items());
    let old_recovered = store
        .prepare(&config, "lane-restart-outcomes", &mut old_visible, false)
        .unwrap();
    assert!(old_recovered.previous.is_some());
    assert!(wire_json_string(&old_visible).contains("restart-old"));

    store.files.insert(prepared.state_file.clone(), new_state);
    let mut new_visible = request(old_transcript_items());
    let rejected = store
        .prepare(&config, "lane-restart-outcomes", &mut new_visible, false)
        .unwrap();
    assert!(rejected.previous.is_none());
    assert!(new_visible.raw_input_override.is_none());
    assert_eq!(
        rejected.state_invalidation_reason,
        Some("transcript_mismatch")
    );

    assert!(!store.has(&prepared));
    let mut missing = request(old_transcript_items());
    let missing_recovery = store
        .prepare(&config, "lane-restart-outcomes", &mut missing, false)
        .unwrap();
    assert!(missing_recovery.previous.is_none());
    assert!(missing.raw_input_override.is_none());

    store
        .files
        .insert(prepared.state_file.clone(), b"{corrupt".to_vec());
    let mut corrupt = request(old_transcript_items());
    assert!(matches!(
        store.prepare(&config, "lane-restart-outcomes", &mut corrupt, false),
        Err(InlineCompactionError::InvalidState(
            "sidecar JSON is corrupt"
        ))
    ));
}

#[test]
fn items_of_any_depth_and_with_any_key_are_sent() {
    let mut store = Store::default();
    let config = test_config();
    let mut first = request(vec![user("deep history")]);
    let prepared = store.prepare(&config, "lane-deep", &mut first, false).unwrap();
    store
        .commit(
            &prepared,
            &sse(
                &[(0, r#"{"type":"compaction","encrypted_content":"opaque"}"#)],
                40_000,
            ),
            &[assistant("answer")],
        )
        .unwrap();

    let mut deep = parse_json("1.5e-7").unwrap();
    for _ in 0..300 {
        deep = Json::Array(vec![deep]);
    }
    let member = |key: &str, value: Json| Member {
        key: key.to_string(),
        value,
    };
    let odd = Json::Object(vec![
        member("$serde_json::private::RawValue", Json::Bool(true)),
        member("deep", deep),
        member("type", Json::Text("future".to_string())),
    ]);
    let mut second = request(vec![
        user("deep history"),
        assistant("answer"),
        ResponsesInputItem::Other(odd),
    ]);
    let prepared_second = store.prepare(&config, "lane-deep", &mut second, false).unwrap();
    assert!(prepared_second.previous.is_some());
    let sent = second.raw_input_override.unwrap();
    assert_eq!(sent.len(), 2);
    assert!(sent[1].starts_with(r#"{"$serde_json::private::RawValue":true,"deep":[[["#));
    assert!(sent[1].contains("[1.5e-7]"));
}
