use crates_mirror::cache::ContentStore;
use crates_mirror::crates::{CrateIdentity, CrateMetadata};
use crates_mirror::errors::Error;
use crates_mirror::index::IndexSnapshot;
use crates_mirror::utils::decode_hex;
use crates_mirror::{BeginOutcome, CoreContext, WorkerEvent};

// SHA-256("abc"), a well-known digest.
const ABC_SHA256: &str = "ba7816bf8f01cfea414140de5dae2223b00361a396177a9cb410ff61f20015ad";
// SHA-256 of the empty input.
const EMPTY_SHA256: &str = "e3b0c44298fc1c149afbf4c8996fb92427ae41e4649b934ca495991b7852b855";

fn ident(name: &str, version: &str) -> CrateIdentity {
    CrateIdentity {
        name: String::from(name),
        version: String::from(version),
    }
}

fn checksum(hex: &str) -> Vec<u8> {
    decode_hex(hex).expect("checksum constant must be hexadecimal")
}

fn context_with(entries: &[(&str, &str, &str)], store_dir: &str, cap: usize) -> CoreContext {
    let store = ContentStore::open(store_dir, true).expect("temporary store must open");
    let mut snapshot = IndexSnapshot::new();
    for (name, version, ck) in entries {
        snapshot.add(ident(name, version), checksum(ck));
    }
    CoreContext::new(store, snapshot, cap)
}

#[test]
fn cold_hit_serves_verified_bytes() {
    let mut ctx = context_with(
        &[("foo", "1.0.0", ABC_SHA256)],
        "/tmp/crates_mirror_test_cold_hit",
        16,
    );
    let who = ident("foo", "1.0.0");
    let sub = match ctx.begin_download(&who) {
        BeginOutcome::Wait(sub, _) => sub,
        _ => panic!("a cold miss must enqueue a download"),
    };
    let task = ctx.take_task().expect("the task must be queued");
    assert!(!ctx.worker_precheck(&task));
    let report = ctx.complete_task(task, WorkerEvent::Fetched(b"abc".to_vec()));
    assert_eq!(report.result, Ok(3));
    assert!(!report.replaced);
    assert!(report.entry_was_present);
    sub.wait();
    let body = ctx
        .read_cached(&checksum(ABC_SHA256))
        .expect("the tarball must now be cached");
    assert_eq!(body, b"abc".to_vec());
}

#[test]
fn warm_hit_never_enqueues() {
    let mut ctx = context_with(
        &[("foo", "1.0.0", ABC_SHA256)],
        "/tmp/crates_mirror_test_warm_hit",
        16,
    );
    let who = ident("foo", "1.0.0");
    let sub = match ctx.begin_download(&who) {
        BeginOutcome::Wait(sub, _) => sub,
        _ => panic!("a cold miss must enqueue a download"),
    };
    let task = ctx.take_task().unwrap();
    ctx.complete_task(task, WorkerEvent::Fetched(b"abc".to_vec()));
    sub.wait();
    // The store is now warm: the same request is served straight away.
    match ctx.begin_download(&who) {
        BeginOutcome::Ready(body) => assert_eq!(body, b"abc".to_vec()),
        _ => panic!("a warm hit must be served from the store"),
    }
    assert_eq!(ctx.coordinator.task_count(), 0);
    assert_eq!(ctx.coordinator.pending_count(), 0);
}

#[test]
fn coalesced_concurrent_miss_makes_one_task() {
    let mut ctx = context_with(
        &[("foo", "1.0.0", ABC_SHA256)],
        "/tmp/crates_mirror_test_coalesce",
        16,
    );
    let who = ident("foo", "1.0.0");
    let mut subs = Vec::new();
    for _ in 0..100 {
        match ctx.begin_download(&who) {
            BeginOutcome::Wait(sub, _) => subs.push(sub),
            _ => panic!("every request must coalesce onto the one task"),
        }
    }
    // One table entry, one queued task: exactly one download will happen.
    assert_eq!(ctx.coordinator.task_count(), 1);
    assert_eq!(ctx.coordinator.pending_count(), 1);
    let task = ctx.take_task().expect("the one task");
    assert!(ctx.take_task().is_none());
    let report = ctx.complete_task(task, WorkerEvent::Fetched(b"abc".to_vec()));
    assert_eq!(report.result, Ok(3));
    for sub in &subs {
        sub.wait();
        let body = ctx.read_cached(&checksum(ABC_SHA256)).unwrap();
        assert_eq!(body, b"abc".to_vec());
    }
}

#[test]
fn checksum_mismatch_stores_nothing_and_allows_retry() {
    let mut ctx = context_with(
        &[("foo", "1.0.0", ABC_SHA256)],
        "/tmp/crates_mirror_test_mismatch",
        16,
    );
    let who = ident("foo", "1.0.0");
    let sub = match ctx.begin_download(&who) {
        BeginOutcome::Wait(sub, _) => sub,
        _ => panic!("cold miss"),
    };
    let task = ctx.take_task().unwrap();
    let report = ctx.complete_task(task, WorkerEvent::Fetched(b"not the tarball".to_vec()));
    assert_eq!(report.result, Err(Error::ChecksumMismatch));
    sub.wait();
    // Nothing was stored, the entry is gone, and a retry is possible.
    assert!(ctx.read_cached(&checksum(ABC_SHA256)).is_none());
    assert_eq!(ctx.coordinator.task_count(), 0);
    // The identical request retried against a healthy upstream succeeds.
    let retry = match ctx.begin_download(&who) {
        BeginOutcome::Wait(sub, _) => sub,
        _ => panic!("the retry must enqueue a fresh download"),
    };
    let task = ctx.take_task().unwrap();
    let report = ctx.complete_task(task, WorkerEvent::Fetched(b"abc".to_vec()));
    assert_eq!(report.result, Ok(3));
    retry.wait();
    assert_eq!(ctx.read_cached(&checksum(ABC_SHA256)).unwrap(), b"abc".to_vec());
}

#[test]
fn upstream_failure_reports_and_unregisters() {
    let mut ctx = context_with(
        &[("foo", "1.0.0", ABC_SHA256)],
        "/tmp/crates_mirror_test_upstream_fail",
        16,
    );
    let who = ident("foo", "1.0.0");
    let sub = match ctx.begin_download(&who) {
        BeginOutcome::Wait(sub, _) => sub,
        _ => panic!("cold miss"),
    };
    let task = ctx.take_task().unwrap();
    let report = ctx.complete_task(task, WorkerEvent::FetchFailed);
    assert_eq!(report.result, Err(Error::UpstreamFetch));
    sub.wait();
    assert!(ctx.read_cached(&checksum(ABC_SHA256)).is_none());
    assert_eq!(ctx.coordinator.task_count(), 0);
}

#[test]
fn overload_refuses_the_fifth_task() {
    let mut ctx = context_with(
        &[
            ("a1", "1.0.0", ABC_SHA256),
            ("a2", "1.0.0", ABC_SHA256),
            ("a3", "1.0.0", ABC_SHA256),
            ("a4", "1.0.0", ABC_SHA256),
            ("a5", "1.0.0", EMPTY_SHA256),
        ],
        "/tmp/crates_mirror_test_overload",
        4,
    );
    let mut subs = Vec::new();
    for name in ["a1", "a2", "a3", "a4"] {
        match ctx.begin_download(&ident(name, "1.0.0")) {
            BeginOutcome::Wait(sub, _) => subs.push(sub),
            _ => panic!("the first four must be accepted"),
        }
    }
    // The fifth distinct cold miss is refused at once.
    assert!(matches!(
        ctx.begin_download(&ident("a5", "1.0.0")),
        BeginOutcome::Overloaded
    ));
    // The accepted four proceed normally.
    for _ in 0..4 {
        let task = ctx.take_task().unwrap();
        let report = ctx.complete_task(task, WorkerEvent::Fetched(b"abc".to_vec()));
        assert_eq!(report.result, Ok(3));
    }
    for sub in &subs {
        sub.wait();
    }
    assert_eq!(ctx.coordinator.task_count(), 0);
    // With the table drained, the fifth request goes through.
    assert!(matches!(
        ctx.begin_download(&ident("a5", "1.0.0")),
        BeginOutcome::Wait(_, _)
    ));
}

#[test]
fn unknown_package_is_not_found_and_never_enqueued() {
    let mut ctx = context_with(
        &[("foo", "1.0.0", ABC_SHA256)],
        "/tmp/crates_mirror_test_unknown",
        16,
    );
    assert!(matches!(
        ctx.begin_download(&ident("bar", "9.9.9")),
        BeginOutcome::NotFound
    ));
    assert_eq!(ctx.coordinator.task_count(), 0);
    assert_eq!(ctx.coordinator.pending_count(), 0);
}

#[test]
fn already_cached_event_skips_and_succeeds() {
    let mut ctx = context_with(
        &[("foo", "1.0.0", ABC_SHA256)],
        "/tmp/crates_mirror_test_skip",
        16,
    );
    let who = ident("foo", "1.0.0");
    // First round fills the store.
    let first = match ctx.begin_download(&who) {
        BeginOutcome::Wait(sub, _) => sub,
        _ => panic!("cold miss"),
    };
    let task = ctx.take_task().unwrap();
    ctx.complete_task(task, WorkerEvent::Fetched(b"abc".to_vec()));
    first.wait();
    // Force a second task for the same metadata by submitting directly.
    let meta = CrateMetadata {
        name: String::from("foo"),
        version: String::from("1.0.0"),
        checksum: checksum(ABC_SHA256),
    };
    let second = ctx.coordinator.submit(meta).expect("table has room");
    let task = ctx.take_task().unwrap();
    // The worker's quick recheck sees the store populated and skips.
    assert!(ctx.worker_precheck(&task));
    let report = ctx.complete_task(task, WorkerEvent::AlreadyCached);
    assert_eq!(report.result, Ok(0));
    assert!(report.entry_was_present);
    second.wait();
    assert!(ctx.read_cached(&checksum(ABC_SHA256)).is_some());
}

#[test]
fn submit_is_idempotent_per_metadata() {
    let mut ctx = context_with(&[], "/tmp/crates_mirror_test_idem", 16);
    let meta = || CrateMetadata {
        name: String::from("foo"),
        version: String::from("1.0.0"),
        checksum: checksum(ABC_SHA256),
    };
    let _first = ctx.coordinator.submit(meta()).unwrap();
    let _second = ctx.coordinator.submit(meta()).unwrap();
    assert_eq!(ctx.coordinator.task_count(), 1);
    assert_eq!(ctx.coordinator.pending_count(), 1);
    // A different checksum is a distinct task identity.
    let other = CrateMetadata {
        name: String::from("foo"),
        version: String::from("1.0.0"),
        checksum: checksum(EMPTY_SHA256),
    };
    let _third = ctx.coordinator.submit(other).unwrap();
    assert_eq!(ctx.coordinator.task_count(), 2);
    assert_eq!(ctx.coordinator.pending_count(), 2);
}

#[test]
fn prefetch_list_names_only_missing_tarballs() {
    let mut ctx = context_with(
        &[
            ("foo", "1.0.0", ABC_SHA256),
            ("bar", "2.0.0", EMPTY_SHA256),
        ],
        "/tmp/crates_mirror_test_prefetch",
        16,
    );
    assert_eq!(ctx.prefetch_list().len(), 2);
    // Fill one of the two, then only the other is listed.
    let who = ident("foo", "1.0.0");
    let sub = match ctx.begin_download(&who) {
        BeginOutcome::Wait(sub, _) => sub,
        _ => panic!("cold miss"),
    };
    let task = ctx.take_task().unwrap();
    ctx.complete_task(task, WorkerEvent::Fetched(b"abc".to_vec()));
    sub.wait();
    let list = ctx.prefetch_list();
    assert_eq!(list.len(), 1);
    assert_eq!(list[0].name, "bar");
    assert_eq!(list[0].version, "2.0.0");
    assert_eq!(list[0].checksum, checksum(EMPTY_SHA256));
}
