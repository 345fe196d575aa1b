//! JSON values, transcripts and fingerprints.

use claudex_bridge::canonical::{canonical_json, equal_json};
use claudex_bridge::digest::{bytes_to_hex, hash_raw_fragments, sha256_hex};
use claudex_bridge::encoding::encode_json;
use claudex_bridge::fingerprint::{request_fingerprint, stable_instructions};
use claudex_bridge::json::{Json, Member};
use claudex_bridge::keys::is_key_repeated;
use claudex_bridge::parsing::parse_json;
use claudex_bridge::recognition::{recognise, replay_item_matches};
use claudex_bridge::replay::{is_compact_message_text, is_portable_compact_message};
use claudex_bridge::request::{ResponsesContentPart, ResponsesInputItem, ResponsesRequest};
use claudex_bridge::transcript::{
    canonical_transcript_item, function_call_arguments_match, hash_list, hash_transcript,
};
use serde_json::Value;

fn json(text: &str) -> Json {
    parse_json(text).expect("a JSON text")
}

fn user(text: &str) -> ResponsesInputItem {
    ResponsesInputItem::Message {
        role: "user".to_string(),
        content: vec![ResponsesContentPart::InputText {
            text: text.to_string(),
        }],
    }
}

fn request(input: Vec<ResponsesInputItem>) -> ResponsesRequest {
    ResponsesRequest {
        model: "gpt-5.6".to_string(),
        instructions: Some("keep continuity".to_string()),
        input,
        tools: None,
        tool_choice: None,
        store: false,
        stream: true,
        parallel_tool_calls: true,
        included: None,
        client_metadata: None,
        service_tier: None,
        prompt_cache_key: Some("session".to_string()),
        text: json(r#"{"verbosity":"low"}"#),
        reasoning: None,
        context_management: None,
        raw_input_override: None,
    }
}

#[test]
fn semantic_fingerprint_normalizes_only_runtime_git_status_entries() {
    let clean = "stable policy\nGit working tree snapshot\n\nCurrent branch: main\n\nMain branch: origin/main\n\nStatus:\n(clean)\n\nstable tail";
    let dirty = "stable policy\nGit working tree snapshot\n\nCurrent branch: main\n\nMain branch: origin/main\n\nStatus:\n M pipeline.py\n?? test_pipeline.py\n\nstable tail";
    let mut clean_request = request(vec![user("history")]);
    clean_request.instructions = Some(clean.to_string());
    let mut dirty_request = request(vec![user("history")]);
    dirty_request.instructions = Some(dirty.to_string());
    assert_eq!(
        request_fingerprint(&clean_request, &[]),
        request_fingerprint(&dirty_request, &[])
    );

    let mut changed_branch = request(vec![user("history")]);
    changed_branch.instructions = Some(dirty.replace("branch: main", "branch: feature"));
    assert_ne!(
        request_fingerprint(&clean_request, &[]),
        request_fingerprint(&changed_branch, &[])
    );

    let mut changed_policy = request(vec![user("history")]);
    changed_policy.instructions = Some(dirty.replace("stable policy", "different policy"));
    assert_ne!(
        request_fingerprint(&clean_request, &[]),
        request_fingerprint(&changed_policy, &[])
    );
}

#[test]
fn edit_default_normalization_is_narrow() {
    let omitted = r#"{"file_path":"pipeline.py","old_string":"before","new_string":"after"}"#;
    let explicit_false = r#"{"new_string":"after","replace_all":false,"old_string":"before","file_path":"pipeline.py"}"#;
    let explicit_true = r#"{"file_path":"pipeline.py","old_string":"before","new_string":"after","replace_all":true}"#;
    let changed_text = r#"{"file_path":"pipeline.py","old_string":"different","new_string":"after","replace_all":false}"#;
    let extra_field = r#"{"file_path":"pipeline.py","old_string":"before","new_string":"after","replace_all":false,"unexpected":0}"#;

    assert!(function_call_arguments_match(
        "Edit",
        Some(omitted),
        Some(explicit_false)
    ));
    assert!(!function_call_arguments_match(
        "Edit",
        Some(omitted),
        Some(explicit_true)
    ));
    assert!(!function_call_arguments_match(
        "Edit",
        Some(omitted),
        Some(changed_text)
    ));
    assert!(!function_call_arguments_match(
        "Edit",
        Some(omitted),
        Some(extra_field)
    ));
    assert!(!function_call_arguments_match(
        "DifferentEditTool",
        Some(omitted),
        Some(explicit_false)
    ));
}

#[test]
fn arguments_that_are_no_json_are_compared_as_texts() {
    assert!(function_call_arguments_match("Bash", Some("ls -l"), Some("ls -l")));
    assert!(!function_call_arguments_match("Bash", Some("ls -l"), Some("ls  -l")));
    assert!(!function_call_arguments_match("Bash", Some("{}"), Some("ls")));
    assert!(!function_call_arguments_match("Bash", Some("{}"), None));
    assert!(!function_call_arguments_match("Bash", None, None));
    assert!(function_call_arguments_match("Bash", Some("{\"a\":0.0}"), Some("{\"a\":-0.0}")));
    assert!(!function_call_arguments_match("Bash", Some("{\"a\":1}"), Some("{\"a\":1.0}")));
}

#[test]
fn instructions_keep_everything_but_a_git_status() {
    assert_eq!(
        stable_instructions("Git\n  STATUS: \n M a\n\nend"),
        "Git\n  STATUS: \n<runtime-git-status>\n\nend"
    );
    assert_eq!(stable_instructions("Status:\n M a"), "Status:\n M a");
    let far = "git\n1\n2\n3\n4\n5\n6\n7\n8\nStatus:\n M a";
    assert_eq!(stable_instructions(far), far);
    let near = "git\n1\n2\n3\n4\n5\n6\n7\nStatus:\n M a\n\u{2003}\nStatus:";
    assert_eq!(
        stable_instructions(near),
        "git\n1\n2\n3\n4\n5\n6\n7\nStatus:\n<runtime-git-status>\n\u{2003}\nStatus:"
    );
    assert_eq!(stable_instructions(""), "");
}

#[test]
fn fingerprints_ignore_controls_of_the_turn() {
    let plain = request(vec![user("history")]);
    let mut other = request(vec![user("something else")]);
    other.tool_choice = Some(Json::Text("required".to_string()));
    other.parallel_tool_calls = false;
    other.prompt_cache_key = None;
    other.text = Json::Null;
    assert_eq!(
        request_fingerprint(&plain, &[]),
        request_fingerprint(&other, &[])
    );
    let mut tools = request(vec![user("history")]);
    tools.tools = Some(json("[{\"name\":\"lookup\"}]"));
    assert_ne!(
        request_fingerprint(&plain, &[]),
        request_fingerprint(&tools, &[])
    );
    assert_ne!(
        request_fingerprint(&plain, &[]),
        request_fingerprint(&plain, &[user("developer note")])
    );
    let mut stream = request(vec![user("history")]);
    stream.stream = false;
    assert_ne!(
        request_fingerprint(&plain, &[]),
        request_fingerprint(&stream, &[])
    );
}

#[test]
fn fingerprint_is_the_digest_of_the_canonical_members() {
    let plain = request(vec![]);
    let text = r#"{"input_envelope":[],"instructions":"keep continuity","model":"gpt-5.6","store":false,"stream":true}"#;
    assert_eq!(request_fingerprint(&plain, &[]), sha256_hex(text.as_bytes()));
}

#[test]
fn values_are_encoded_as_serde_json_does() {
    for text in [
        "null",
        "true",
        "false",
        "0",
        "-7",
        "18446744073709551615",
        "1.5",
        "\"\"",
        r#""a\"b\\c\n\t\r\b\f\u0001\u001f/é€😀""#,
        "[]",
        "{}",
        r#"[1,[2,"three",null],{"b":1,"a":[true,false]}]"#,
        r#"{"z":{"y":{"x":1e3}},"a":"q"}"#,
    ] {
        let value: Value = serde_json::from_str(text).unwrap();
        assert_eq!(encode_json(&json(text)), serde_json::to_string(&value).unwrap());
    }
    assert!(parse_json("{").is_none());
    assert!(parse_json("[1,]").is_none());
    assert!(parse_json("").is_none());
}

#[test]
fn member_order_and_repeated_keys_do_not_matter() {
    let a = json(r#"{"b":1,"a":{"d":2,"c":3}}"#);
    let b = json(r#"{"a":{"c":3,"d":2},"b":1}"#);
    assert!(equal_json(&a, &b));
    let unordered = Json::Object(vec![
        Member {
            key: "b".to_string(),
            value: json("0"),
        },
        Member {
            key: "a".to_string(),
            value: json(r#"{"d":2,"c":3}"#),
        },
        Member {
            key: "b".to_string(),
            value: json("1"),
        },
    ]);
    assert!(equal_json(&a, &unordered));
    assert_eq!(
        encode_json(&canonical_json(&unordered)),
        r#"{"a":{"c":3,"d":2},"b":1}"#
    );
    assert!(!equal_json(&a, &json(r#"{"b":1}"#)));
    assert!(!equal_json(&json("[1,2]"), &json("[2,1]")));
}

#[test]
fn keys_that_are_written_twice_are_seen() {
    assert!(is_key_repeated(r#"{"item":1,"other":2,"item":3}"#, "item"));
    assert!(is_key_repeated(r#"{"item":1,"item":3}"#, "item"));
    assert!(!is_key_repeated(r#"{"item":{"item":1},"other":["item","item"]}"#, "item"));
    assert!(!is_key_repeated(r#"{"other":"{\"item\":1,\"item\":2}","item":"item"}"#, "item"));
    assert!(!is_key_repeated("{}", "item"));
}

#[test]
fn digests_are_those_of_sha2() {
    assert_eq!(
        sha256_hex(b"abc"),
        "ba7816bf8f01cfea414140de5dae2223b00361a396177a9cb410ff61f20015ad"
    );
    assert_eq!(bytes_to_hex(&[0, 15, 16, 255]), "000f10ff");
    let mut framed: Vec<u8> = Vec::new();
    framed.extend_from_slice(&[0, 0, 0, 0, 0, 0, 0, 2]);
    framed.extend_from_slice(b"ab");
    framed.extend_from_slice(&[0, 0, 0, 0, 0, 0, 0, 3]);
    framed.extend_from_slice("c\u{e9}".as_bytes());
    assert_eq!(
        hash_raw_fragments(&vec!["ab".to_string(), "c\u{e9}".to_string()]),
        sha256_hex(&framed)
    );
    assert_eq!(
        hash_raw_fragments(&vec![]),
        "e3b0c44298fc1c149afbf4c8996fb92427ae41e4649b934ca495991b7852b855"
    );
    assert_ne!(
        hash_raw_fragments(&vec!["ab".to_string(), "c".to_string()]),
        hash_raw_fragments(&vec!["a".to_string(), "bc".to_string()])
    );
}

#[test]
fn function_calls_are_hashed_with_canonical_arguments() {
    let item = json(
        r#"{"type":"function_call","call_id":"c","name":"lookup","arguments":"{ \"b\": 1, \"a\": 2 }"}"#,
    );
    assert_eq!(
        encode_json(&canonical_transcript_item(&item)),
        r#"{"arguments":"{\"a\":2,\"b\":1}","call_id":"c","name":"lookup","type":"function_call"}"#
    );
    let no_json = json(r#"{"type":"function_call","name":"lookup","arguments":"{"}"#);
    assert!(equal_json(&canonical_transcript_item(&no_json), &no_json));
    let message = json(r#"{"type":"message","name":"lookup","arguments":"{ }"}"#);
    assert!(equal_json(&canonical_transcript_item(&message), &message));
    assert_eq!(hash_transcript(&[]), sha256_hex(b"[]"));
    assert_eq!(hash_transcript(&[json("{\"a\":1}")]), sha256_hex(b"[{\"a\":1}]"));
}

fn matches(expected: &Json, actual: &Json) -> bool {
    replay_item_matches(&recognise(expected), actual)
}

#[test]
fn items_are_recognised_by_what_identifies_them() {
    let reasoning = json(r#"{"type":"reasoning","id":"r","summary":[],"encrypted_content":"e"}"#);
    let summarised =
        json(r#"{"type":"reasoning","id":"r","summary":["s"],"encrypted_content":"e"}"#);
    let other = json(r#"{"type":"reasoning","id":"r2","summary":[],"encrypted_content":"e"}"#);
    assert!(matches(&reasoning, &summarised));
    assert!(!matches(&reasoning, &other));
    let call = json(r#"{"type":"function_call","call_id":"c","name":"n","arguments":"{}"}"#);
    let spaced =
        json(r#"{"type":"function_call","call_id":"c","name":"n","arguments":"{ }","id":"x"}"#);
    let renamed = json(r#"{"type":"function_call","call_id":"c","name":"m","arguments":"{}"}"#);
    let broken = json(r#"{"type":"function_call","call_id":"c","name":"n","arguments":"{"}"#);
    assert!(matches(&call, &spaced));
    assert!(!matches(&call, &renamed));
    assert!(!matches(&call, &reasoning));
    assert!(!matches(&call, &broken));
    assert!(matches(&broken, &broken));
    let untextual = json(r#"{"type":"function_call","call_id":"c","name":"n","arguments":{}}"#);
    assert!(!matches(&untextual, &untextual));
    let message = json(r#"{"type":"message","role":"user","content":[]}"#);
    assert!(matches(&message, &message));
    assert!(matches(&json("7"), &json("7")));
    assert!(matches(&json("[0.0]"), &json("[-0.0]")));
    assert!(!matches(&json("[1]"), &json("[1.0]")));
    let edit = |arguments: &str| {
        json(&format!(
            r#"{{"type":"function_call","call_id":"c","name":"Edit","arguments":{}}}"#,
            serde_json::to_string(arguments).unwrap()
        ))
    };
    assert!(matches(
        &edit(r#"{"file_path":"f","old_string":"a","new_string":"b"}"#),
        &edit(r#"{"new_string":"b","file_path":"f","replace_all":false,"old_string":"a"}"#)
    ));
}

#[test]
fn recognitions_hold_a_type_and_a_digest() {
    let message = recognise(&json(r#"{"type":"message","text":"secret","n":-0.0}"#));
    assert_eq!(message.kind.as_deref(), Some("message"));
    assert_eq!(
        message.sha256,
        Some(sha256_hex(br#"{"n":0.0,"text":"secret","type":"message"}"#))
    );
    let reasoning = recognise(&json(
        r#"{"type":"reasoning","id":"r","summary":["s"],"encrypted_content":"e"}"#,
    ));
    assert_eq!(
        reasoning.sha256,
        Some(sha256_hex(br#"{"id":"r","encrypted_content":"e"}"#))
    );
    let call = recognise(&json(
        r#"{"type":"function_call","call_id":"c","name":"n","arguments":"{ \"b\":1,\"a\":2}"}"#,
    ));
    assert_eq!(
        call.sha256,
        Some(sha256_hex(br#"{"call_id":"c","name":"n","arguments":{"a":2,"b":1}}"#))
    );
    let broken = recognise(&json(r#"{"type":"function_call","name":"n","arguments":"{"}"#));
    assert_eq!(
        broken.sha256,
        Some(sha256_hex(br#"{"name":"n","text":"{"}"#))
    );
    let number = recognise(&json("7"));
    assert_eq!(number.kind, None);
    assert_eq!(number.sha256, Some(sha256_hex(b"7")));
    let untextual = recognise(&json(r#"{"type":"function_call","arguments":{}}"#));
    assert_eq!(untextual.sha256, None);
}

#[test]
fn values_are_hashed_in_canonical_form() {
    let member = |key: &str, value: Json| Member {
        key: key.to_string(),
        value,
    };
    let unordered = Json::Object(vec![
        member("b", Json::Null),
        member("a", Json::Bool(true)),
        member("b", Json::Bool(false)),
    ]);
    let digest = sha256_hex(br#"[{"a":true,"b":false}]"#);
    assert_eq!(hash_list(&[unordered.clone()]), digest);
    assert_eq!(hash_transcript(&[unordered]), digest);
}

#[test]
fn summary_instructions_are_recognised_in_texts_and_parts() {
    let instruction = "CRITICAL: Respond with TEXT ONLY. Do NOT call any tools.\n\nYour task is to create a detailed summary of the conversation so far.";
    assert!(is_compact_message_text(instruction));
    assert!(!is_compact_message_text("CRITICAL: Respond with TEXT ONLY. Do NOT call any tools."));
    let quoted = serde_json::to_string(instruction).unwrap();
    let as_text = format!(r#"{{"type":"message","role":"user","content":{quoted}}}"#);
    let as_part = format!(
        r#"{{"type":"message","role":"user","content":[{{"type":"image"}},{{"type":"input_text","text":{quoted}}}]}}"#
    );
    let by_assistant = format!(r#"{{"type":"message","role":"assistant","content":{quoted}}}"#);
    assert!(is_portable_compact_message(&json(&as_text)));
    assert!(is_portable_compact_message(&json(&as_part)));
    assert!(!is_portable_compact_message(&json(&by_assistant)));
    assert!(!is_portable_compact_message(&json(r#"{"type":"message","role":"user","content":7}"#)));
}
