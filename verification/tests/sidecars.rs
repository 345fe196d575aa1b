//! Sidecars as they are written and read back.

use claudex_bridge::digest::{hash_raw_fragments, hash_text, sha256_hex};
use claudex_bridge::error::{InlineCompactionError, IoFailure, IoKind};
use claudex_bridge::parsing::parse_json;
use claudex_bridge::recognition::recognise;
use claudex_bridge::sidecar::{seal_state, FileFacts, SidecarState};
use claudex_bridge::stored::{read_sidecar, read_state};
use serde_json::Value;

fn state() -> SidecarState {
    let compaction = r#"{"type":"compaction","encrypted_content":"opaque \"quoted\""}"#;
    let suffix = vec![
        "{ \"type\" : \"message\",\n\"role\":\"assistant\",\"content\":[]}".to_string(),
        r#"{"type":"future","text":"a\u0041\\"}"#.to_string(),
    ];
    SidecarState {
        version: 1,
        lane_hash: "lane".to_string(),
        model: "gpt-5.6".to_string(),
        semantic_fingerprint: "meaning".to_string(),
        compact_threshold: u64::MAX,
        source_prefix_count: 2,
        source_prefix_sha256: "prefix".to_string(),
        last_output_match: vec![
            recognise(&parse_json(r#"{"type":"message","a":[-3,1.5,null]}"#).unwrap()),
            recognise(&parse_json(r#""only a text""#).unwrap()),
            recognise(&parse_json(r#"{"type":"function_call"}"#).unwrap()),
        ],
        compaction_item_json: compaction.to_string(),
        compaction_item_sha256: hash_text(compaction),
        opaque_sha256: hash_text("opaque \"quoted\""),
        raw_suffix_sha256: hash_raw_fragments(&suffix),
        raw_suffix_json: suffix,
        usage_input_tokens: 40_000,
        updated_at_ms: 9,
    }
}

fn fault(contents: &str) -> &'static str {
    fault_in(contents.as_bytes())
}

fn fault_in(contents: &[u8]) -> &'static str {
    match read_sidecar(contents) {
        Err(InlineCompactionError::InvalidState(text)) => text,
        other => panic!("expected an invalid sidecar, got {other:?}"),
    }
}

const CORRUPT: &str = "sidecar JSON is corrupt";

#[test]
fn sealed_states_are_read_back_as_they_were() {
    let state = state();
    let text = seal_state(&state).unwrap();
    let read = read_sidecar(text.as_bytes()).unwrap();
    assert_eq!(seal_state(&read).unwrap(), text);
    assert_eq!(read.raw_suffix_json, state.raw_suffix_json);
    assert_eq!(read.compaction_item_json, state.compaction_item_json);
    assert_eq!(read.compact_threshold, u64::MAX);
    assert_eq!(read.source_prefix_count, 2);
    assert_eq!(read.last_output_match.len(), 3);
    assert_eq!(read.last_output_match[0].kind.as_deref(), Some("message"));
    assert_eq!(
        read.last_output_match[0].sha256,
        Some(sha256_hex(br#"{"a":[-3,1.5,null],"type":"message"}"#))
    );
    assert_eq!(read.last_output_match[1].kind, None);
    assert_eq!(read.last_output_match[2].sha256, None);
    assert!(!text.contains("only a text"));
    assert_eq!(read.updated_at_ms, 9);
}

#[test]
fn members_may_be_written_in_any_order_and_others_are_passed_over() {
    let text = seal_state(&state()).unwrap();
    let envelope: Value = serde_json::from_str(&text).unwrap();
    let rewritten = format!(
        "{{\"state_sha256\": {}, \"later\": [1, {{}}],\n \"state\": {} }}",
        envelope["state_sha256"], envelope["state"]
    );
    assert_ne!(rewritten, text);
    let read = read_sidecar(rewritten.as_bytes()).unwrap();
    assert_eq!(seal_state(&read).unwrap(), text);
}

#[test]
fn members_that_are_no_fields_are_not_looked_into() {
    let text = seal_state(&state()).unwrap();
    let deep = format!("{}{}", "[".repeat(200), "]".repeat(200));
    for later in ["1e400", "\"\\ud800\"", deep.as_str()] {
        let outer = text.replace("{\"state\":", &format!("{{\"later\":{later},\"state\":"));
        assert_eq!(seal_state(&read_sidecar(outer.as_bytes()).unwrap()).unwrap(), text);
        let inner = text.replace("\"version\":1,", &format!("\"later\":{later},\"version\":1,"));
        assert_eq!(seal_state(&read_sidecar(inner.as_bytes()).unwrap()).unwrap(), text);
    }
    assert_eq!(
        fault(&text.replace("{\"state\":", "{\"later\":,\"state\":")),
        CORRUPT
    );
}

#[test]
fn fields_may_stand_in_their_places() {
    let text = seal_state(&state()).unwrap();
    let envelope: Value = serde_json::from_str(&text).unwrap();
    let fields = [
        "version",
        "lane_hash",
        "model",
        "semantic_fingerprint",
        "compact_threshold",
        "source_prefix_count",
        "source_prefix_sha256",
        "last_output_match",
        "compaction_item_json",
        "compaction_item_sha256",
        "opaque_sha256",
        "raw_suffix_json",
        "raw_suffix_sha256",
        "usage_input_tokens",
        "updated_at_ms",
    ];
    let values: Vec<Value> = fields.iter().map(|name| envelope["state"][name].clone()).collect();
    let listed = Value::Array(vec![
        Value::Array(values.clone()),
        envelope["state_sha256"].clone(),
    ]);
    let read = read_sidecar(listed.to_string().as_bytes()).unwrap();
    assert_eq!(seal_state(&read).unwrap(), text);

    let outer = Value::Array(vec![
        envelope["state"].clone(),
        envelope["state_sha256"].clone(),
    ]);
    let read = read_sidecar(outer.to_string().as_bytes()).unwrap();
    assert_eq!(seal_state(&read).unwrap(), text);

    let short = Value::Array(vec![
        Value::Array(values[..14].to_vec()),
        envelope["state_sha256"].clone(),
    ]);
    assert_eq!(fault(&short.to_string()), CORRUPT);
    let long = Value::Array(vec![
        Value::Array(values),
        envelope["state_sha256"].clone(),
        Value::Null,
    ]);
    assert_eq!(fault(&long.to_string()), CORRUPT);
}

#[test]
fn contents_that_are_no_sidecar_are_corrupt() {
    let text = seal_state(&state()).unwrap();
    assert_eq!(fault_in(b"\xff"), CORRUPT);
    for contents in ["", "{", "null", "{}", "[]", "7", "\"state\""] {
        assert_eq!(fault(contents), CORRUPT, "{contents}");
    }
    for (from, to) in [
        ("\"version\":1", "\"version\":4294967296"),
        ("\"version\":1", "\"version\":1.0"),
        ("\"version\":1", "\"version\":\"1\""),
        ("\"version\":1", "\"version\":-1"),
        ("\"model\":\"gpt-5.6\"", "\"model\":null"),
        ("\"model\":\"gpt-5.6\"", "\"modell\":\"gpt-5.6\""),
        ("\"last_output_match\":[", "\"last_output_match\":{},\"later\":["),
        ("\"last_output_match\":[", "\"last_output_match\":[7,"),
        ("\"last_output_match\":[", "\"last_output_match\":[{\"kind\":7,\"sha256\":null},"),
        ("\"last_output_match\":[", "\"last_output_match\":[{\"kind\":null},"),
        ("\"raw_suffix_json\":[", "\"raw_suffix_json\":[1,"),
        ("\"state_sha256\":", "\"state_sha\":"),
    ] {
        assert!(text.contains(from));
        assert_eq!(fault(&text.replace(from, to)), CORRUPT, "{to}");
    }
}

#[test]
fn a_field_that_is_written_twice_is_corrupt() {
    let text = seal_state(&state()).unwrap();
    for (from, to) in [
        ("\"version\":1,", "\"version\":1,\"version\":1,"),
        ("\"version\":1,", "\"version\":1,\"\\u0076ersion\":1,"),
        ("\"updated_at_ms\":9", "\"updated_at_ms\":9,\"updated_at_ms\":9"),
        ("{\"state\":", "{\"state\":{},\"state\":"),
        ("\"state_sha256\":", "\"state_sha256\":\"\",\"state_sha256\":"),
    ] {
        assert!(text.contains(from));
        assert_eq!(fault(&text.replace(from, to)), CORRUPT, "{to}");
    }
    let other = text.replace("\"version\":1,", "\"version\":1,\"later\":1,\"later\":2,");
    assert_eq!(seal_state(&read_sidecar(other.as_bytes()).unwrap()).unwrap(), text);
}

#[test]
fn a_changed_state_does_not_agree_with_its_checksum() {
    let text = seal_state(&state()).unwrap();
    let changed = text.replace("\"updated_at_ms\":9", "\"updated_at_ms\":10");
    assert_eq!(fault(&changed), "sidecar checksum mismatch");

    let mut newer = state();
    newer.version = 2;
    let sealed = seal_state(&newer).unwrap();
    assert_eq!(fault(&sealed), "unsupported sidecar version");
}

#[test]
fn a_field_that_is_written_as_an_object_is_corrupt() {
    let text = seal_state(&state()).unwrap();
    let raw = |inner: &str| {
        format!(
            "{{\"$serde_json::private::RawValue\":{}}}",
            Value::String(inner.to_string())
        )
    };
    let checksum = serde_json::from_str::<Value>(&text).unwrap()["state_sha256"].to_string();
    for (from, to) in [
        ("\"version\":1".to_string(), format!("\"version\":{}", raw("1"))),
        (
            "\"model\":\"gpt-5.6\"".to_string(),
            format!("\"model\":{}", raw("\"gpt-5.6\"")),
        ),
        (
            "\"raw_suffix_json\":[".to_string(),
            format!("\"raw_suffix_json\":[{},", raw("\"x\"")),
        ),
        (
            "\"kind\":\"message\"".to_string(),
            format!("\"kind\":{}", raw("\"message\"")),
        ),
        (checksum.clone(), raw(&checksum)),
    ] {
        assert!(text.contains(&from));
        assert_eq!(fault(&text.replace(&from, &to)), CORRUPT, "{to}");
    }
    assert_eq!(fault(&raw(&text)), CORRUPT);
}

/// The contents with bytes in place of a marker in the text.
fn with_bytes(text: &str, bytes: &[u8]) -> Vec<u8> {
    let at = text.find("MARKER").unwrap();
    let mut contents = text.as_bytes()[..at].to_vec();
    contents.extend_from_slice(bytes);
    contents.extend_from_slice(&text.as_bytes()[at + "MARKER".len()..]);
    contents
}

#[test]
fn strings_of_members_that_are_no_fields_may_hold_any_bytes() {
    let text = seal_state(&state()).unwrap();
    let members = ["\"later\":\"MARKER\",", "\"later\":[{\"MARKER\":1}],"];
    for bytes in [&b"\xff"[..], b"\xc3", b"\xe2\x82", b"a\xf0\x9f\x98b", b"\xed\xa0\x80\xc3\xa9"] {
        for member in members {
            let outer = text.replace("{\"state\":", &format!("{{{member}\"state\":"));
            let inner = text.replace("\"version\":1,", &format!("{member}\"version\":1,"));
            for rewritten in [outer, inner] {
                let contents = with_bytes(&rewritten, bytes);
                assert!(std::str::from_utf8(&contents).is_err());
                let read = read_sidecar(&contents).unwrap();
                assert_eq!(seal_state(&read).unwrap(), text);
            }
        }
    }
}

#[test]
fn fields_and_keys_hold_text_only() {
    let text = seal_state(&state()).unwrap();
    for (from, to) in [
        ("\"model\":\"gpt-5.6\"", "\"model\":\"MARKER\""),
        ("\"version\":1", "\"version\":MARKER"),
        ("\"version\":1,", "\"version\":1,\"MARKER\":1,"),
        ("\"version\":1,", "\"version\":1,\"xMARKER\":1,\"x?\":1,\"x!\":1,"),
        ("{\"state\":", "{\"MARKER\":1,\"state\":"),
        ("{\"state\":", "{\"later\":MARKER,\"state\":"),
        ("\"raw_suffix_json\":[", "\"raw_suffix_json\":[\"MARKER\","),
        ("\"kind\":\"message\"", "\"kind\":\"MARKER\""),
        ("\"state_sha256\":\"", "\"state_sha256\":\"MARKER"),
        ("\"version\":1,", "\"later\":\"\\MARKER\",\"version\":1,"),
    ] {
        assert!(text.contains(from));
        let contents = with_bytes(&text.replace(from, to), b"\xff");
        assert_eq!(fault_in(&contents), CORRUPT, "{to}");
    }
}

#[test]
fn states_are_read_out_of_files_that_can_be_sidecars() {
    let bytes = || Ok(seal_state(&state()).unwrap().into_bytes());
    let failure = |kind| IoFailure {
        kind,
        raw_os_error: None,
        on_linux: true,
        message: String::new(),
    };
    let file = FileFacts {
        regular: true,
        length: bytes().unwrap_or_else(|error: IoFailure| panic!("{error:?}")).len() as u64,
        mode: Some(0o100600),
    };
    assert!(file.is_readable());
    let read = read_state(Ok(file), bytes()).unwrap().unwrap();
    assert_eq!(seal_state(&read).unwrap(), seal_state(&state()).unwrap());
    assert!(read_state(Err(failure(IoKind::NotFound)), bytes()).unwrap().is_none());
    assert!(matches!(
        read_state(Err(failure(IoKind::Other)), bytes()),
        Err(InlineCompactionError::Io { operation: "inspecting sidecar", .. })
    ));
    assert!(matches!(
        read_state(Ok(file), Err(failure(IoKind::NotFound))),
        Err(InlineCompactionError::Io { operation: "reading sidecar", .. })
    ));
    assert!(matches!(
        read_state(Ok(file), Ok(vec![])),
        Err(InlineCompactionError::InvalidState(CORRUPT))
    ));
    for (odd, name) in [
        (FileFacts { regular: false, ..file }, "sidecar is not a regular file"),
        (FileFacts { length: 64 * 1024 * 1024 + 1, ..file }, "sidecar exceeds the size limit"),
        (FileFacts { mode: Some(0o100644), ..file }, "sidecar permissions are not 0600"),
    ] {
        assert!(!odd.is_readable());
        assert!(matches!(
            read_state(Ok(odd), bytes()),
            Err(InlineCompactionError::InvalidState(fault)) if fault == name
        ));
    }
    let largest = FileFacts { length: 64 * 1024 * 1024, mode: None, ..file };
    assert!(largest.is_readable());
}
