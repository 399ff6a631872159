use razel::cache::{Cache, CacheKey};
use razel::jsonl::{record_from_line, register_record, CommandRecord};
use razel::command::{CommandId, Executor, Tag};
use razel::log::{LogFile, LogFileItem, Measurement};
use razel::registry::Registry;
use razel::scheduler::{NextAction, Scheduler, SchedulingError};
use razel::tui::TUI;
use razel::types::{BlobDigest, CacheHit, ExecutionResult, ExecutionStatus};

fn process(program: &str) -> Executor {
    Executor::Process { program: program.to_string(), args: vec![] }
}

fn success_result() -> ExecutionResult {
    ExecutionResult {
        status: ExecutionStatus::Success,
        cache_hit: None,
        exec_millis: Some(5),
        total_millis: Some(7),
        exit_code: Some(0),
        error: None,
        stdout: vec![],
        stderr: vec![],
    }
}

fn failed_result() -> ExecutionResult {
    ExecutionResult {
        status: ExecutionStatus::Failed,
        cache_hit: None,
        exec_millis: Some(5),
        total_millis: Some(7),
        exit_code: Some(1),
        error: Some("boom".to_string()),
        stdout: vec![],
        stderr: vec![],
    }
}

#[test]
fn duplicate_output_rejected() {
    let mut reg = Registry::new();
    let f = reg.add_file("out.txt".to_string(), "out.txt".to_string());
    let a = reg.add_command("a".to_string(), process("a"), vec![], vec![f], vec![]);
    assert!(a.is_ok());
    let b = reg.add_command("b".to_string(), process("b"), vec![], vec![f], vec![]);
    assert!(b.is_err());
    assert_eq!(b.unwrap_err().file, f);
    // the registry still holds exactly one command
    assert_eq!(reg.command_count(), 1);
}

#[test]
fn cycle_detected_and_nothing_runs() {
    let mut reg = Registry::new();
    let f1 = reg.add_file("f1".to_string(), "f1".to_string());
    let f2 = reg.add_file("f2".to_string(), "f2".to_string());
    let a = reg
        .add_command("a".to_string(), process("a"), vec![f2], vec![f1], vec![])
        .unwrap();
    let b = reg
        .add_command("b".to_string(), process("b"), vec![f1], vec![f2], vec![])
        .unwrap();
    let mut s = Scheduler::new();
    s.push(a);
    s.push(b);
    let r = s.start(&reg);
    match r {
        Err(SchedulingError::CyclicDependency { involved }) => {
            assert!(!involved.is_empty());
        }
        Ok(()) => panic!("cycle not detected"),
    }
    // no command was dispatched; both queued commands are recorded in the
    // log as never started
    assert_eq!(s.stats().execution.succeeded, 0);
    assert_eq!(s.stats().execution.failed, 0);
    assert_eq!(s.stats().execution.not_run, 0);
    assert_eq!(s.log().items.len(), 2);
    assert_eq!(s.log().items[0].name, "a");
    assert_eq!(s.log().items[1].name, "b");
    assert_eq!(s.log().items[0].status, ExecutionStatus::NotStarted);
    assert_eq!(s.log().items[1].status, ExecutionStatus::NotStarted);
}

#[test]
fn acyclic_graph_starts() {
    let mut reg = Registry::new();
    let f1 = reg.add_file("f1".to_string(), "f1".to_string());
    let a = reg
        .add_command("a".to_string(), process("a"), vec![], vec![f1], vec![])
        .unwrap();
    let b = reg
        .add_command("b".to_string(), process("b"), vec![f1], vec![], vec![])
        .unwrap();
    let mut s = Scheduler::new();
    s.push(a);
    s.push(b);
    assert!(s.start(&reg).is_ok());
}

/// Batch with A (no deps), B (depends on A's output), C (independent): A
/// fails, so B is skipped while C still succeeds.
#[test]
fn failure_skips_dependents_only() {
    let mut reg = Registry::new();
    let fa = reg.add_file("a.out".to_string(), "a.out".to_string());
    let a = reg
        .add_command("a".to_string(), process("a"), vec![], vec![fa], vec![])
        .unwrap();
    let b = reg
        .add_command("b".to_string(), process("b"), vec![fa], vec![], vec![])
        .unwrap();
    let c = reg
        .add_command("c".to_string(), process("c"), vec![], vec![], vec![])
        .unwrap();
    let mut s = Scheduler::new();
    s.push(a);
    s.push(b);
    s.push(c);
    assert!(s.start(&reg).is_ok());
    loop {
        match s.next_action(&mut reg) {
            NextAction::Execute(cid) => {
                if cid == a {
                    s.record_execution(&mut reg, cid, failed_result(), vec![], None, vec![]);
                } else {
                    assert_eq!(cid, c);
                    s.record_execution(&mut reg, cid, success_result(), vec![], Some(3), vec![]);
                }
            }
            NextAction::Skipped(cid) => assert_eq!(cid, b),
            NextAction::Cached(_, _) => panic!("nothing was cached"),
            NextAction::Wait => panic!("sequential driver never waits"),
            NextAction::Finished => break,
        }
    }
    let stats = s.stats();
    assert_eq!(stats.execution.failed, 1);
    assert_eq!(stats.execution.succeeded, 1);
    assert_eq!(stats.execution.not_run, 1);
    assert_eq!(stats.cache_hits, 0);
    // the log records B as skipped, not failed or not-started
    let b_item = s.log().items.iter().find(|i| i.name == "b").unwrap();
    assert_eq!(b_item.status, ExecutionStatus::Skipped);
    let c_item = s.log().items.iter().find(|i| i.name == "c").unwrap();
    assert_eq!(c_item.status, ExecutionStatus::Success);
    assert_eq!(c_item.output_size, Some(3));
}

/// A command with executor and inputs identical to a previously cached
/// successful command is served from the local cache without dispatching.
#[test]
fn identical_command_hits_local_cache() {
    let mut reg = Registry::new();
    let src = reg.add_file("in".to_string(), "in".to_string());
    reg.set_digest(src, BlobDigest { hash: 11, size_bytes: 4 });
    let o1 = reg.add_file("o1".to_string(), "o1".to_string());
    let o2 = reg.add_file("o2".to_string(), "o2".to_string());
    let c1 = reg
        .add_command("c1".to_string(), process("tool"), vec![src], vec![o1], vec![])
        .unwrap();
    let d = reg
        .add_command("d".to_string(), process("tool"), vec![src], vec![o2], vec![])
        .unwrap();
    let mut s = Scheduler::new();
    s.push(c1);
    s.push(d);
    assert!(s.start(&reg).is_ok());
    let mut cached_hit = None;
    loop {
        match s.next_action(&mut reg) {
            NextAction::Execute(cid) => {
                assert_eq!(cid, c1, "d must not launch a process");
                s.record_execution(
                    &mut reg,
                    cid,
                    success_result(),
                    vec![BlobDigest { hash: 99, size_bytes: 8 }],
                    None,
                    vec![],
                );
            }
            NextAction::Cached(cid, hit) => {
                assert_eq!(cid, d);
                cached_hit = Some(hit);
            }
            NextAction::Skipped(_) => panic!("nothing skipped"),
            NextAction::Wait => panic!("sequential driver never waits"),
            NextAction::Finished => break,
        }
    }
    assert_eq!(cached_hit, Some(CacheHit::Local));
    assert_eq!(s.stats().cache_hits, 1);
    assert_eq!(s.stats().execution.succeeded, 2);
    // the log records d's cache classification
    let d_item = s.log().items.iter().find(|i| i.name == "d").unwrap();
    assert_eq!(d_item.cache, Some(CacheHit::Local));
    assert_eq!(d_item.status, ExecutionStatus::Success);
    // d's output digest was materialized from the cache
    assert_eq!(reg.file(o2).digest, Some(BlobDigest { hash: 99, size_bytes: 8 }));
}

#[test]
fn time_saved_by_cache_cases() {
    let base = LogFileItem {
        name: "x".to_string(),
        tags: vec![],
        status: ExecutionStatus::Success,
        cache: Some(CacheHit::Local),
        exec_ms: Some(10),
        total_ms: Some(4),
        output_size: None,
        measurements: vec![],
    };
    assert_eq!(base.time_saved_by_cache(), Some(6));
    let equal = LogFileItem { exec_ms: Some(4), total_ms: Some(4), ..copy_item(&base) };
    assert_eq!(equal.time_saved_by_cache(), Some(0));
    let negative = LogFileItem { exec_ms: Some(4), total_ms: Some(9), ..copy_item(&base) };
    assert_eq!(negative.time_saved_by_cache(), Some(-5));
    let no_cache = LogFileItem { cache: None, ..copy_item(&base) };
    assert_eq!(no_cache.time_saved_by_cache(), None);
    let no_exec = LogFileItem { exec_ms: None, ..copy_item(&base) };
    assert_eq!(no_exec.time_saved_by_cache(), None);
    let no_total = LogFileItem { total_ms: None, ..copy_item(&base) };
    assert_eq!(no_total.time_saved_by_cache(), None);
}

fn copy_item(i: &LogFileItem) -> LogFileItem {
    LogFileItem {
        name: i.name.clone(),
        tags: i.tags.clone(),
        status: i.status,
        cache: i.cache,
        exec_ms: i.exec_ms,
        total_ms: i.total_ms,
        output_size: i.output_size,
        measurements: vec![],
    }
}

#[test]
fn push_not_run_records_bare_statuses() {
    let mut reg = Registry::new();
    let c = reg
        .add_command(
            "c".to_string(),
            process("c"),
            vec![],
            vec![],
            vec![Tag::Custom("lbl".to_string()), Tag::Verbose],
        )
        .unwrap();
    let mut log = LogFile::new();
    let command = reg.command(c);
    log.push_not_run(command, ExecutionStatus::NotStarted);
    log.push_not_run(command, ExecutionStatus::Skipped);
    assert_eq!(log.items.len(), 2);
    assert_eq!(log.items[0].status, ExecutionStatus::NotStarted);
    assert_eq!(log.items[1].status, ExecutionStatus::Skipped);
    // only custom tags are carried into the log
    assert_eq!(log.items[0].tags, vec!["lbl".to_string()]);
    assert_eq!(log.items[0].cache, None);
    assert_eq!(log.items[0].exec_ms, None);
    assert_eq!(log.items[0].total_ms, None);
    assert_eq!(log.items[0].output_size, None);
    assert!(log.items[0].measurements.is_empty());
}

#[test]
fn log_push_records_measurements() {
    let mut reg = Registry::new();
    let c = reg
        .add_command("m".to_string(), process("m"), vec![], vec![], vec![])
        .unwrap();
    let mut log = LogFile::new();
    let m = Measurement {
        key: "lines".to_string(),
        value: razel::log::MeasurementValue::Int(42),
    };
    log.push(reg.command(c), &success_result(), Some(100), vec![m]);
    assert_eq!(log.items.len(), 1);
    assert_eq!(log.items[0].exec_ms, Some(5));
    assert_eq!(log.items[0].total_ms, Some(7));
    assert_eq!(log.items[0].output_size, Some(100));
    assert_eq!(log.items[0].measurements.len(), 1);
}

#[test]
fn cache_classify_kinds() {
    let key = CacheKey {
        executor: process("t"),
        input_digests: vec![BlobDigest { hash: 1, size_bytes: 1 }],
    };
    let out = BlobDigest { hash: 2, size_bytes: 2 };
    // full miss
    let cache = Cache::new(true);
    assert!(cache.classify(&key).is_none());
    // local hit
    let mut cache = Cache::new(false);
    cache.store_local(
        CacheKey { executor: process("t"), input_digests: key.input_digests.clone() },
        vec![out],
    );
    let (hit, outs) = cache.classify(&key).unwrap();
    assert_eq!(hit, CacheHit::Local);
    assert_eq!(outs, vec![out]);
    // a different key still misses
    let other = CacheKey { executor: process("u"), input_digests: key.input_digests.clone() };
    assert!(cache.classify(&other).is_none());
}

#[test]
fn parse_command_splits_program_and_args() {
    let mut reg = Registry::new();
    let mut s = Scheduler::new();
    let cid = razel::parse::parse_command(
        &mut s,
        &mut reg,
        vec!["cc".to_string(), "-c".to_string(), "x.c".to_string()],
    )
    .unwrap();
    match &reg.command(cid).executor {
        Executor::Process { program, args } => {
            assert_eq!(program, "cc");
            assert_eq!(args, &vec!["-c".to_string(), "x.c".to_string()]);
        }
        _ => panic!("expected a process executor"),
    }
    assert!(razel::parse::parse_command(&mut s, &mut reg, vec![]).is_err());
}

#[test]
fn tui_status_state() {
    let mut tui = TUI::new();
    assert!(!tui.status_printed);
    assert!(!tui.begin_status());
    assert!(tui.begin_status());
    assert!(tui.clear_status());
    assert!(!tui.clear_status());
}

#[test]
fn dependency_edges_follow_creating_commands() {
    let mut reg = Registry::new();
    let f1 = reg.add_file("f1".to_string(), "f1".to_string());
    let root = reg.add_file("root".to_string(), "root".to_string());
    let a = reg
        .add_command("a".to_string(), process("a"), vec![], vec![f1], vec![])
        .unwrap();
    let b = reg
        .add_command("b".to_string(), process("b"), vec![f1, root], vec![], vec![])
        .unwrap();
    assert_eq!(reg.dependency_edges(b), vec![a]);
    assert_eq!(reg.dependency_edges(a), Vec::<CommandId>::new());
}

#[test]
fn jsonl_records_build_dependency_edges() {
    let line_a = "{\"name\":\"gen\",\"executable\":\"tool\",\"args\":[\"-o\",\"out.bin\"],\"inputs\":[],\"outputs\":[\"out.bin\"]}";
    let line_b = "{\"name\":\"use\",\"executable\":\"tool2\",\"args\":[],\"inputs\":[\"out.bin\"],\"outputs\":[]}";
    let rec_a = record_from_line(line_a).unwrap();
    let rec_b = record_from_line(line_b).unwrap();
    match &rec_a {
        CommandRecord::Custom { name, executable, args, inputs, outputs } => {
            assert_eq!(name, "gen");
            assert_eq!(executable, "tool");
            assert_eq!(args, &vec!["-o".to_string(), "out.bin".to_string()]);
            assert!(inputs.is_empty());
            assert_eq!(outputs, &vec!["out.bin".to_string()]);
        }
        _ => panic!("expected a custom command"),
    }
    let mut reg = Registry::new();
    let mut s = Scheduler::new();
    let a = register_record(&mut s, &mut reg, rec_a).unwrap();
    let b = register_record(&mut s, &mut reg, rec_b).unwrap();
    // both records name the same path, so the file is shared and induces an
    // edge from the consumer to the producer
    assert_eq!(reg.dependency_edges(b), vec![a]);
    assert!(s.start(&reg).is_ok());
}

#[test]
fn jsonl_task_record_parses() {
    let line = "{\"name\":\"cp\",\"task\":\"copy\",\"args\":[\"a\",\"b\"]}";
    match record_from_line(line).unwrap() {
        CommandRecord::Task { name, task, args } => {
            assert_eq!(name, "cp");
            assert_eq!(task, "copy");
            assert_eq!(args, vec!["a".to_string(), "b".to_string()]);
        }
        _ => panic!("expected a task record"),
    }
    assert!(record_from_line("{\"name\":\"x\"}").is_err());
    assert!(record_from_line("").is_err());
}

#[test]
fn jsonl_duplicate_output_rejected() {
    let mut reg = Registry::new();
    let mut s = Scheduler::new();
    let rec1 = record_from_line(
        "{\"name\":\"a\",\"executable\":\"t\",\"args\":[],\"inputs\":[],\"outputs\":[\"f\"]}",
    )
    .unwrap();
    let rec2 = record_from_line(
        "{\"name\":\"b\",\"executable\":\"t\",\"args\":[],\"inputs\":[],\"outputs\":[\"f\"]}",
    )
    .unwrap();
    assert!(register_record(&mut s, &mut reg, rec1).is_ok());
    assert!(register_record(&mut s, &mut reg, rec2).is_err());
}
