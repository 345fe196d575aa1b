//! Configuration and capacity.

use std::path::PathBuf;

use claudex_bridge::capacity::{
    AcquireStep, PermitEvent, UpstreamCapacityConfig, UpstreamCapacityError, UpstreamClass,
};
use claudex_bridge::config::{
    EnvText, InlineCompactionConfig, SessionConcurrencyConfig, StateDirectory, TransportSettings,
};
use claudex_bridge::error::InlineCompactionError;

fn text(value: &str) -> Option<EnvText> {
    Some(EnvText::Text(value.to_string()))
}

fn directory() -> Option<StateDirectory> {
    Some(StateDirectory::of(PathBuf::from("/var/lib/state")))
}

const HTTP: TransportSettings = TransportSettings {
    server_compaction: false,
    previous_response_id: false,
    http_transport: true,
};

fn config_fault(
    threshold: Option<EnvText>,
    state_dir: Option<StateDirectory>,
    settings: TransportSettings,
) -> &'static str {
    match InlineCompactionConfig::from_environment(threshold, state_dir, settings) {
        Err(InlineCompactionError::Config(text)) => text,
        _ => panic!("expected a configuration error"),
    }
}

#[test]
fn inline_compaction_is_configured_by_a_threshold_and_a_directory() {
    assert!(InlineCompactionConfig::from_environment(None, None, HTTP)
        .unwrap()
        .is_none());
    let config = InlineCompactionConfig::from_environment(text(" +32768\n"), directory(), HTTP)
        .unwrap()
        .unwrap();
    assert_eq!(config.threshold(), 32_768);
    assert_eq!(config.state_dir(), &PathBuf::from("/var/lib/state"));
}

#[test]
fn each_fault_of_an_inline_configuration_is_named() {
    assert_eq!(
        config_fault(Some(EnvText::NotUnicode), directory(), HTTP),
        "threshold must be valid UTF-8"
    );
    for raw in ["", "many", "-1", "1e5", "18446744073709551616", "+", "4 0000"] {
        assert_eq!(
            config_fault(text(raw), directory(), HTTP),
            "threshold must be an integer"
        );
    }
    assert_eq!(
        config_fault(text("32767"), directory(), HTTP),
        "threshold is below the verified upstream minimum"
    );
    assert_eq!(
        config_fault(text("32768"), None, HTTP),
        "state directory is required when inline compaction is enabled"
    );
    let empty = Some(StateDirectory::of(PathBuf::new()));
    assert_eq!(
        config_fault(text("32768"), empty, HTTP),
        "state directory is required when inline compaction is enabled"
    );
    for path in ["var/lib/state", "/"] {
        let odd = Some(StateDirectory::of(PathBuf::from(path)));
        assert_eq!(
            config_fault(text("32768"), odd, HTTP),
            "state directory must be an absolute non-root path"
        );
    }
    assert_eq!(
        config_fault(
            text("32768"),
            directory(),
            TransportSettings {
                server_compaction: true,
                ..HTTP
            }
        ),
        "legacy server compaction must be disabled"
    );
    assert_eq!(
        config_fault(
            text("32768"),
            directory(),
            TransportSettings {
                previous_response_id: true,
                ..HTTP
            }
        ),
        "previous_response_id must be disabled"
    );
    assert_eq!(
        config_fault(
            text("32768"),
            directory(),
            TransportSettings {
                http_transport: false,
                ..HTTP
            }
        ),
        "the verified inline compaction path requires HTTP transport"
    );
}

fn session_fault(max: Option<EnvText>, timeout: Option<EnvText>) -> &'static str {
    match SessionConcurrencyConfig::from_environment(max, timeout) {
        Err(InlineCompactionError::Config(text)) => text,
        other => panic!("expected a configuration error, got {other:?}"),
    }
}

#[test]
fn session_concurrency_is_configured_by_a_maximum_and_a_wait() {
    assert!(SessionConcurrencyConfig::from_environment(None, text("5"))
        .unwrap()
        .is_none());
    let config = SessionConcurrencyConfig::from_environment(text("64"), None)
        .unwrap()
        .unwrap();
    assert_eq!(config.max_concurrent(), 64);
    assert_eq!(config.wait_timeout_secs(), 300);
    let config = SessionConcurrencyConfig::from_environment(text("1"), text("3600"))
        .unwrap()
        .unwrap();
    assert_eq!(config.max_concurrent(), 1);
    assert_eq!(config.wait_timeout_secs(), 3_600);
    assert_eq!(
        session_fault(Some(EnvText::NotUnicode), None),
        "session concurrency must be valid UTF-8"
    );
    assert_eq!(
        session_fault(text("x"), None),
        "session concurrency must be an integer"
    );
    for raw in ["0", "65"] {
        assert_eq!(
            session_fault(text(raw), None),
            "session concurrency must be between 1 and 64"
        );
    }
    assert_eq!(
        session_fault(text("2"), Some(EnvText::NotUnicode)),
        "session queue timeout must be valid UTF-8"
    );
    assert_eq!(
        session_fault(text("2"), text("soon")),
        "session queue timeout must be an integer"
    );
    for raw in ["0", "3601"] {
        assert_eq!(
            session_fault(text("2"), text(raw)),
            "session queue timeout must be between 1 and 3600 seconds"
        );
    }
}

fn capacity_fault(values: [Option<EnvText>; 4]) -> &'static str {
    let [global, data, control, timeout] = values;
    match UpstreamCapacityConfig::from_environment(global, data, control, timeout) {
        Err(UpstreamCapacityError::Config(text)) => text,
        other => panic!("expected a configuration error, got {other:?}"),
    }
}

#[test]
fn capacity_is_configured_by_three_limits() {
    assert!(UpstreamCapacityConfig::from_environment(None, None, None, text("5"))
        .unwrap()
        .is_none());
    let limits = UpstreamCapacityConfig::from_environment(text("3"), text("2"), text("1"), None)
        .unwrap()
        .unwrap();
    assert_eq!(limits.global_max, 3);
    assert_eq!(limits.data_max, 2);
    assert_eq!(limits.control_max, 1);
    assert_eq!(limits.wait_timeout_ms, 300_000);
    let limits =
        UpstreamCapacityConfig::from_environment(text("3"), text("2"), text("1"), text(" 20 "))
            .unwrap()
            .unwrap();
    assert_eq!(limits.wait_timeout_ms, 20_000);
}

#[test]
fn each_fault_of_a_capacity_is_named() {
    assert_eq!(
        capacity_fault([text("3"), None, text("1"), None]),
        "global, data, and control limits must be configured together"
    );
    assert_eq!(
        capacity_fault([text("x"), text("2"), text("1"), None]),
        "global upstream capacity must be an integer"
    );
    assert_eq!(
        capacity_fault([text("3"), text("x"), text("1"), None]),
        "data upstream capacity must be an integer"
    );
    assert_eq!(
        capacity_fault([text("3"), text("2"), text("x"), None]),
        "control upstream capacity must be an integer"
    );
    assert_eq!(
        capacity_fault([text("3"), Some(EnvText::NotUnicode), text("1"), None]),
        "upstream capacity must be valid UTF-8"
    );
    assert_eq!(
        capacity_fault([text("65"), text("64"), text("1"), None]),
        "upstream capacity must be between 1 and 64"
    );
    assert_eq!(
        capacity_fault([text("3"), text("3"), text("0"), None]),
        "upstream capacity must be between 1 and 64"
    );
    assert_eq!(
        capacity_fault([text("4"), text("2"), text("1"), None]),
        "data plus control capacity must equal global capacity"
    );
    assert_eq!(
        capacity_fault([text("3"), text("2"), text("1"), Some(EnvText::NotUnicode)]),
        "upstream queue timeout must be valid UTF-8"
    );
    assert_eq!(
        capacity_fault([text("3"), text("2"), text("1"), text("x")]),
        "upstream queue timeout must be an integer"
    );
    assert_eq!(
        capacity_fault([text("3"), text("2"), text("1"), text("0")]),
        "upstream queue timeout must be between 1 and 3600 seconds"
    );
}

/// The permits of two classes and of all requests, as semaphores count them.
struct Permits {
    data: usize,
    control: usize,
    global: usize,
}

impl Permits {
    fn acquire(&mut self, class: UpstreamClass) -> Result<(), UpstreamCapacityError> {
        let mut step = AcquireStep::TakeClassPermit;
        while step != AcquireStep::Granted {
            let free = match (step, class) {
                (AcquireStep::TakeClassPermit, UpstreamClass::Data) => &mut self.data,
                (AcquireStep::TakeClassPermit, UpstreamClass::Control) => &mut self.control,
                _ => &mut self.global,
            };
            let event = if *free > 0 {
                *free -= 1;
                PermitEvent::Taken
            } else {
                PermitEvent::TimedOut
            };
            step = step.advance(event, class)?;
        }
        Ok(())
    }
}

#[test]
fn data_queue_cannot_consume_reserved_control_capacity() {
    let mut gates = Permits {
        data: 2,
        control: 1,
        global: 3,
    };
    gates.acquire(UpstreamClass::Data).unwrap();
    gates.acquire(UpstreamClass::Data).unwrap();
    assert!(matches!(
        gates.acquire(UpstreamClass::Data),
        Err(UpstreamCapacityError::QueueTimeout { class: "data" })
    ));
    gates.acquire(UpstreamClass::Control).unwrap();
}

#[test]
fn closed_gates_and_full_queues_are_failures() {
    assert!(matches!(
        AcquireStep::TakeClassPermit.advance(PermitEvent::Closed, UpstreamClass::Data),
        Err(UpstreamCapacityError::GateClosed)
    ));
    let timeout = AcquireStep::TakeGlobalPermit
        .advance(PermitEvent::TimedOut, UpstreamClass::Control)
        .unwrap_err();
    assert_eq!(
        timeout.message(),
        "request timed out in the Codex upstream control queue"
    );
    assert_eq!(
        UpstreamCapacityError::GateClosed.message(),
        "Codex upstream capacity gate closed"
    );
    assert_eq!(
        UpstreamCapacityError::Config("x").message(),
        "Codex upstream capacity configuration error: x"
    );
    assert_eq!(UpstreamClass::Data.as_str(), "data");
    assert_eq!(UpstreamClass::Control.as_str(), "control");
}
