use rend::bench::{
    hot_bound, mint_source, pick_receiver, tx_source, Args, ArgsError, Workload, BANK_MODULE, COUNTER_MODULE,
};
use rend::error::{Error, ErrorKind};
use rend::server::{
    artifact_cell, batch_answers, batch_len, body_fault, commit_step, deploy_response, frame_fault, frame_kind,
    hash_text, mean, need_artifact, parse_hash, read_artifact, resolve_deps, CommitResult, CommitStep, Config,
    FrameKind, ServerError, Stage, StoredCell, TxStats, ARTIFACT_NS_TAG,
};
use rend::storage::{encode_key, encode_keys, judge_commits, ns_for, Commit};
use rend::token::Span;
use rend::value::{Json, Value};
use rend::wire::{value_to_json, Wire};

fn texts(s: &[&str]) -> Vec<String> {
    s.iter().map(|t| t.to_string()).collect()
}

#[test]
fn keys_hold_namespace_then_cell() {
    let k = encode_key(0x0102030405060708, 0x1112131415161718191a1b1c1d1e1f20);
    let want: Vec<u8> = (1u8..=8).chain(0x11..=0x20).collect();
    assert_eq!(k.to_vec(), want);
    let keys = encode_keys(1, &[1, 2, 3]);
    assert_eq!(keys.len(), 3);
    assert_eq!(keys[2], encode_key(1, 3));
    assert_ne!(encode_key(7, 1), encode_key(8, 1));
}

fn commit(reads: Vec<(u128, Option<Vec<u8>>)>, writes: Vec<(u128, Vec<u8>)>) -> Commit {
    Commit { reads, writes }
}

#[test]
fn changed_reads_conflict() {
    let found = vec![(1u128, vec![1u8, 2])];
    let of = |reads| judge_commits(&found, &vec![commit(reads, vec![(9, vec![9u8])])]);
    let (results, writes) = of(vec![(1, Some(vec![1, 2])), (2, None)]);
    assert_eq!(results, vec![CommitResult::Committed]);
    assert_eq!(writes, vec![(9, vec![9u8])]);
    for reads in [vec![(1, Some(vec![1, 3]))], vec![(2, Some(vec![]))], vec![(1, None)]] {
        let (results, writes) = of(reads);
        assert_eq!(results, vec![CommitResult::Conflict]);
        assert!(writes.is_empty());
    }
}

#[test]
fn commits_of_a_batch_see_one_another() {
    let found = vec![(1u128, vec![0u8])];
    let jobs = vec![
        commit(vec![(1, Some(vec![0]))], vec![(1, vec![1])]),
        commit(vec![(1, Some(vec![0]))], vec![(1, vec![2])]),
        commit(vec![(1, Some(vec![1]))], vec![(1, vec![3]), (2, vec![4])]),
        commit(vec![(2, None)], vec![(2, vec![5])]),
    ];
    let (results, writes) = judge_commits(&found, &jobs);
    let (yes, no) = (CommitResult::Committed, CommitResult::Conflict);
    assert_eq!(results, vec![yes, no, yes, no]);
    assert_eq!(writes, vec![(1, vec![1u8]), (1, vec![3]), (2, vec![4])]);
}

#[test]
fn namespaces_are_low_halves_of_hashes() {
    let h = rend::hashing::child(0, b"acme");
    assert_eq!(ns_for("acme"), h as u64);
    assert_ne!(ns_for("acme"), ns_for("other"));
}

#[test]
fn settings_have_defaults() {
    let c = Config::from_vars(None, None, None);
    assert_eq!((c.listen.as_str(), c.data_dir.as_str(), c.fuel), ("0.0.0.0:8080", "/data", 2_000_000));
    let c = Config::from_vars(Some("x:1".to_string()), Some("/d".to_string()), Some("77".to_string()));
    assert_eq!((c.listen.as_str(), c.data_dir.as_str(), c.fuel), ("x:1", "/d", 77));
    let c = Config::from_vars(None, None, Some("many".to_string()));
    assert_eq!(c.fuel, 2_000_000);
}

#[test]
fn counters_add_up() {
    let mut s = TxStats::default();
    s.note(Stage::ResolveDeps, 10);
    s.note(Stage::CompileTx, 20);
    s.note_attempt(0);
    s.note(Stage::ExecuteTx, 30);
    s.note_attempt(1);
    s.note(Stage::ExecuteTx, 30);
    s.note(Stage::Commit, 5);
    s.note_done(100);
    s.note_done(100);
    let r = s.report();
    assert_eq!((r.count, r.retries), (2, 1));
    assert_eq!((r.total, r.resolve_deps, r.compile_tx, r.execute_tx, r.commit), (100, 5, 10, 30, 2));
    assert_eq!((r.other, r.other_total), (52, 105));
    assert_eq!(mean(9, 0), 0);
    s.note(Stage::Commit, u64::MAX);
    assert_eq!(s.commit_ns, 4);
    s.reset();
    assert_eq!(s, TxStats::default());
}

#[test]
fn errors_have_status_and_text() {
    let e = ServerError::BadRequest("x".to_string());
    assert_eq!((e.status(), e.message().as_str(), e.to_string().as_str()), (400, "x", "bad request: x"));
    let e = ServerError::NotFound;
    assert_eq!((e.status(), e.message().as_str(), e.to_string().as_str()), (404, "not found", "not found"));
    let e = ServerError::CommitConflict;
    assert_eq!((e.status(), e.to_string().as_str()), (409, "commit failed after 5 retries due to OCC conflicts"));
    let inner = Error::new(ErrorKind::Type, "no".to_string(), Span { start: 1, end: 2 });
    let e = ServerError::Rend(inner);
    assert_eq!(e.status(), 422);
    assert_eq!(e.message(), "Type error at 1..2: no");
    assert_eq!(e.to_string(), "rend error: Type error at 1..2: no");
    let e = ServerError::RocksDb("io".to_string());
    assert_eq!((e.status(), e.message().as_str(), e.to_string().as_str()), (500, "io", "rocksdb error: io"));
    let e = ServerError::Other("o".to_string());
    assert_eq!((e.status(), e.to_string().as_str()), (500, "o"));
}

#[test]
fn hashes_print_and_parse() {
    let h: u128 = 0x00ab_cdef_0123;
    assert_eq!(hash_text(h), "00000000000000000000".to_string() + "00abcdef0123");
    assert_eq!(hash_text(h), format!("{:032x}", h));
    assert_eq!(parse_hash(&hash_text(h)).unwrap(), h);
    assert_eq!(parse_hash("FFFFFFFFFFFFFFFFFFFFFFFFFFFFFFFF").unwrap(), u128::MAX);
    assert_eq!(parse_hash("+0000000000000000000000000000001").unwrap(), 1);
    assert_eq!(parse_hash("abc").unwrap_err().message(), "artifact hash must be 32 hex chars, got 3");
    assert_eq!(parse_hash("é").unwrap_err().message(), "artifact hash must be 32 hex chars, got 2");
    let bad = "g".repeat(32);
    assert_eq!(parse_hash(&bad).unwrap_err().message(), format!("invalid hex hash: {bad}"));
    assert_eq!(artifact_cell(h), rend::hashing::child(ARTIFACT_NS_TAG, &h.to_be_bytes()));
}

#[test]
fn artifacts_that_cannot_be_read() {
    let h = hash_text(1);
    assert!(read_artifact(&h, StoredCell::Missing).unwrap().is_none());
    assert_eq!(need_artifact(&h, StoredCell::Missing).unwrap_err().status(), 404);
    assert_eq!(read_artifact(&h, StoredCell::Corrupt).unwrap_err().message(), "corrupt artifact in storage");
    assert_eq!(read_artifact(&h, StoredCell::WrongTag).unwrap_err().message(), "artifact cell has wrong tag");
    let m = read_artifact(&h, StoredCell::Bytes(vec![1, 2])).unwrap_err().message();
    assert!(m.starts_with("artifact decode failed: Runtime error at 0..0: "), "{m}");
}

#[test]
fn the_first_missing_dependency_decides() {
    let good = rend::artifact::encode(&[]);
    let hashes = texts(&[&hash_text(1), &hash_text(2), "x"]);
    let cells = vec![StoredCell::Bytes(good.clone()), StoredCell::Missing, StoredCell::Missing];
    let e = resolve_deps(&hashes, cells).unwrap_err();
    assert_eq!(e.message(), format!("dep artifact {} not found", hash_text(2)));
    let hashes = texts(&[&hash_text(1), &hash_text(2)]);
    let cells = vec![StoredCell::Bytes(good.clone()), StoredCell::Bytes(good.clone())];
    let v = resolve_deps(&hashes, cells).unwrap();
    assert_eq!((v[0].content_hash, v[1].content_hash), (1, 2));
    assert_eq!(v[1].bytes, good);
}

#[test]
fn five_attempts_and_no_more() {
    for k in 0usize..4 {
        assert_eq!(commit_step(k, CommitResult::Conflict), CommitStep::Retry);
        assert_eq!(commit_step(k, CommitResult::Committed), CommitStep::Reply);
    }
    assert_eq!(commit_step(4, CommitResult::Conflict), CommitStep::GiveUp);
    assert_eq!(commit_step(4, CommitResult::Committed), CommitStep::Reply);
}

#[test]
fn frames_have_kinds() {
    assert_eq!(frame_kind("compile").unwrap(), FrameKind::Compile);
    assert_eq!(frame_kind("deploy").unwrap(), FrameKind::Deploy);
    assert_eq!(frame_kind("tx").unwrap(), FrameKind::Tx);
    assert_eq!(frame_kind("query").unwrap(), FrameKind::Query);
    assert_eq!(frame_kind("Tx").unwrap_err(), "unknown kind: Tx");
    assert_eq!(frame_fault("eof"), "frame parse: eof");
    assert_eq!(body_fault("no hash").to_string(), "bad request: body: no hash");
}

#[test]
fn batches_are_answered_one_by_one() {
    assert_eq!((batch_len(1), batch_len(64), batch_len(65)), (1, 64, 64));
    let r = batch_answers(3, Ok(vec![CommitResult::Committed, CommitResult::Conflict]));
    assert_eq!(r, vec![Some(Ok(CommitResult::Committed)), Some(Ok(CommitResult::Conflict)), None]);
    let r = batch_answers(2, Err("disk".to_string()));
    assert_eq!(r, vec![Some(Err("disk".to_string())), Some(Err("disk".to_string()))]);
}

#[test]
fn nothing_to_deploy_gives_null() {
    let r = deploy_response(&None);
    assert!(matches!(r.result, Wire::Null));
    assert_eq!(r.writes_applied, 0);
}

#[test]
fn values_become_json() {
    let show = |v: &Value| format!("{:?}", value_to_json(v));
    assert_eq!(show(&Value::of_int(-3)), "Signed(-3)");
    assert_eq!(show(&Value::U64(7)), "Unsigned(7)");
    assert_eq!(show(&Value::U128(u128::MAX)), "Text(\"340282366920938463463374607431768211455\")");
    assert_eq!(show(&Value::Bytes(vec![0, 255])), "Text(\"00ff\")");
    assert_eq!(show(&Value::Unit), "Null");
    assert_eq!(show(&Value::PMap(3)), "Null");
    let d = Value::Dict(vec![(Value::U32(1), Value::Bool(true))]);
    assert_eq!(show(&d), "List([List([Unsigned(1), Bool(true)])])");
    let s = Value::Struct { name: "P".to_string(), fields: vec![("x".to_string(), Value::I32(2))] };
    assert_eq!(show(&s), "Object([(\"@struct\", Text(\"P\")), (\"x\", Signed(2))])");
    let e = Value::Enum { enum_name: "E".to_string(), variant: "A".to_string(), payload: vec![Value::Unit] };
    assert_eq!(
        show(&e),
        "Object([(\"@enum\", Text(\"E\")), (\"variant\", Text(\"A\")), (\"payload\", List([Null]))])"
    );
    let i = Value::Interface { iface: "I".to_string(), target_module: "m".to_string() };
    assert_eq!(show(&i), "Object([(\"@iface\", Text(\"I\")), (\"target\", Text(\"m\"))])");
    let j = Value::Json(Json::Array(vec![Value::of_int(1)]));
    assert_eq!(show(&j), "Canonical(\"[1]\")");
}

#[test]
fn options_are_read() {
    let a = Args::parse(&vec![]).unwrap();
    assert_eq!(a.target, "http://127.0.0.1:8080");
    assert_eq!((a.workers, a.duration, a.warmup, a.accounts, a.inflight), (8, 10, 1, 100, 1));
    assert_eq!((a.workload, a.shared, a.ws), (Workload::Tx, false, false));
    let a = Args::parse(&texts(&[
        "--target", "u", "--workers", "2", "--duration", "3", "--warmup", "0", "--workload", "transfer-hot",
        "--shared", "--ws", "--inflight", "9", "--accounts", "4", "--workers", "5",
    ]))
    .unwrap();
    assert_eq!(a.target, "u");
    assert_eq!((a.workers, a.duration, a.warmup, a.accounts, a.inflight), (5, 3, 0, 4, 9));
    assert_eq!((a.workload, a.shared, a.ws), (Workload::TransferHot, true, true));
}

#[test]
fn bad_options_are_refused() {
    let e = |s: &[&str]| Args::parse(&texts(s)).unwrap_err();
    assert!(matches!(e(&["--target"]), ArgsError::NoTarget));
    assert!(matches!(e(&["--workers"]), ArgsError::BadNumber(s) if s.is_empty()));
    assert!(matches!(e(&["--duration", "-1"]), ArgsError::BadNumber(s) if s == "-1"));
    assert!(matches!(e(&["--workload", "all"]), ArgsError::UnknownWorkload(s) if s == "all"));
    assert!(matches!(e(&["--fast"]), ArgsError::Unexpected(s) if s == "--fast"));
    assert!(matches!(e(&["--ws", "-h", "--fast"]), ArgsError::Help));
    assert!(matches!(e(&["--help"]), ArgsError::Help));
}

#[test]
fn workloads_have_names_and_sources() {
    for w in [Workload::Tx, Workload::Query, Workload::Transfer, Workload::TransferHot] {
        assert_eq!(Workload::named(w.label()), Some(w));
    }
    assert_eq!(Workload::named("none"), None);
    assert_eq!((Workload::Query.kind(), Workload::Transfer.kind()), ("query", "tx"));
    assert_eq!(Workload::Transfer.source(), BANK_MODULE);
    assert_eq!(Workload::Query.source(), COUNTER_MODULE);
    assert!(BANK_MODULE.contains("assert(b_from >= amount, \"insufficient\");"));
}

#[test]
fn requests_of_workloads() {
    assert_eq!(
        mint_source(12),
        r#"module setup; fn main() -> u64 { return bank::mint(address("acc-12"), 1000000u64); }"#
    );
    assert_eq!(
        tx_source(Workload::Transfer, 3, 4),
        r#"module t; fn main() -> u64 { return bank::transfer(address("acc-3"), address("acc-4"), 1u64); }"#
    );
    assert_eq!(
        tx_source(Workload::TransferHot, 3, 4),
        r#"module t; fn main() -> u64 { return bank::transfer(address("acc-3"), address("acc-0"), 1u64); }"#
    );
    assert_eq!(tx_source(Workload::Tx, 0, 0), "module t; fn main() -> u64 { return ctr::bump(); }");
    assert_eq!(tx_source(Workload::Query, 0, 0), "module q; view fn main() -> u64 { return ctr::current(); }");
}

#[test]
fn receivers_differ_from_senders() {
    assert_eq!(pick_receiver(3, 3, 4), 0);
    assert_eq!(pick_receiver(1, 1, 4), 2);
    assert_eq!(pick_receiver(1, 3, 4), 3);
    assert_eq!(pick_receiver(0, 0, 1), 0);
    assert_eq!((hot_bound(0), hot_bound(1), hot_bound(7)), (2, 2, 7));
}
