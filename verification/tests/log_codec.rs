use razel::codec::{log_from_text, log_to_text};
use razel::log::{LogFile, LogFileItem, Measurement, MeasurementValue};
use razel::types::{CacheHit, ExecutionStatus};

fn full_item() -> LogFileItem {
    LogFileItem {
        name: "build \"quoted\" \\ thing".to_string(),
        tags: vec!["alpha".to_string(), "beta".to_string()],
        status: ExecutionStatus::Success,
        cache: Some(CacheHit::Mixed),
        exec_ms: Some(1500),
        total_ms: Some(40),
        output_size: Some(12345),
        measurements: vec![
            Measurement { key: "lines".to_string(), value: MeasurementValue::Int(-42) },
            Measurement { key: "note".to_string(), value: MeasurementValue::Str("ok".to_string()) },
        ],
    }
}

fn bare_item() -> LogFileItem {
    LogFileItem {
        name: "x".to_string(),
        tags: vec![],
        status: ExecutionStatus::Skipped,
        cache: None,
        exec_ms: None,
        total_ms: None,
        output_size: None,
        measurements: vec![],
    }
}

#[test]
fn save_then_load_round_trips() {
    let log = LogFile { items: vec![full_item(), bare_item()] };
    let text = log_to_text(&log).unwrap();
    let loaded = log_from_text(&text).unwrap();
    assert_eq!(loaded.items.len(), 2);
    let a = &loaded.items[0];
    assert_eq!(a.name, "build \"quoted\" \\ thing");
    assert_eq!(a.tags, vec!["alpha".to_string(), "beta".to_string()]);
    assert_eq!(a.status, ExecutionStatus::Success);
    assert_eq!(a.cache, Some(CacheHit::Mixed));
    assert_eq!(a.exec_ms, Some(1500));
    assert_eq!(a.total_ms, Some(40));
    assert_eq!(a.output_size, Some(12345));
    assert_eq!(a.measurements.len(), 2);
    assert_eq!(a.measurements[0].key, "lines");
    assert!(matches!(a.measurements[0].value, MeasurementValue::Int(-42)));
    assert_eq!(a.measurements[1].key, "note");
    match &a.measurements[1].value {
        MeasurementValue::Str(s) => assert_eq!(s, "ok"),
        _ => panic!("expected a string measurement"),
    }
    let b = &loaded.items[1];
    assert_eq!(b.name, "x");
    assert!(b.tags.is_empty());
    assert_eq!(b.status, ExecutionStatus::Skipped);
    assert_eq!(b.cache, None);
    assert_eq!(b.exec_ms, None);
    assert_eq!(b.total_ms, None);
    assert_eq!(b.output_size, None);
    assert!(b.measurements.is_empty());
    // saving the reloaded log reproduces the exact document
    let text2 = log_to_text(&loaded).unwrap();
    assert_eq!(text, text2);
}

#[test]
fn empty_log_round_trips() {
    let log = LogFile { items: vec![] };
    let text = log_to_text(&log).unwrap();
    assert_eq!(text, "[]");
    let loaded = log_from_text(&text).unwrap();
    assert!(loaded.items.is_empty());
}

#[test]
fn load_single_record_document() {
    let text = "[{\"name\":\"x\",\"status\":\"Success\",\"output_size\":100}]";
    let loaded = log_from_text(text).unwrap();
    assert_eq!(loaded.items.len(), 1);
    let item = &loaded.items[0];
    assert_eq!(item.name, "x");
    assert!(item.tags.is_empty());
    assert_eq!(item.status, ExecutionStatus::Success);
    assert_eq!(item.cache, None);
    assert_eq!(item.exec_ms, None);
    assert_eq!(item.total_ms, None);
    assert_eq!(item.output_size, Some(100));
    assert!(item.measurements.is_empty());
}

#[test]
fn null_output_size_is_preserved() {
    let text = "[{\"name\":\"y\",\"status\":\"Failed\",\"output_size\":null}]";
    let loaded = log_from_text(text).unwrap();
    assert_eq!(loaded.items[0].output_size, None);
    assert_eq!(loaded.items[0].status, ExecutionStatus::Failed);
}

#[test]
fn malformed_documents_are_rejected() {
    assert!(log_from_text("").is_err());
    assert!(log_from_text("nonsense").is_err());
    assert!(log_from_text("[{\"name\":\"x\"}]").is_err());
    assert!(log_from_text("[{\"name\":\"x\",\"status\":\"Success\",\"output_size\":100}").is_err());
    assert!(log_from_text("[{\"name\":\"x\",\"status\":\"Nope\",\"output_size\":1}]").is_err());
}
