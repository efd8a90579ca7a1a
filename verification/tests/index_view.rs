use crates_mirror::crates::CrateIdentity;
use crates_mirror::index::{
    build_snapshot, index_path, is_index_entry_name, parse_index_line, plan_init, plan_sync,
    prefetch_step, runs_in_clone, split_lines, sync_advance, sync_decision, vcs_argv, InitStep,
    IndexSnapshot, SyncOutcome, SyncStep, VcsOp,
};
use crates_mirror::utils::decode_hex;
use crates_mirror::cache::ContentStore;
use crates_mirror::CoreContext;

const ABC_SHA256: &str = "ba7816bf8f01cfea414140de5dae2223b00361a396177a9cb410ff61f20015ad";
const EMPTY_SHA256: &str = "e3b0c44298fc1c149afbf4c8996fb92427ae41e4649b934ca495991b7852b855";

fn ident(name: &str, version: &str) -> CrateIdentity {
    CrateIdentity {
        name: String::from(name),
        version: String::from(version),
    }
}

fn line(name: &str, vers: &str, cksum: &str) -> String {
    format!(
        "{{\"name\":\"{}\",\"vers\":\"{}\",\"deps\":[],\"features\":{{}},\"yanked\":false,\"cksum\":\"{}\"}}",
        name, vers, cksum
    )
}

#[test]
fn parse_line_reads_the_three_fields() {
    let text = line("foo", "1.0.0", ABC_SHA256);
    let (who, checksum) = parse_index_line(text.as_bytes()).expect("a well-formed line parses");
    assert_eq!(who.name, "foo");
    assert_eq!(who.version, "1.0.0");
    assert_eq!(checksum, decode_hex(ABC_SHA256).unwrap());
}

#[test]
fn parse_line_rejects_damage() {
    // Not JSON at all.
    assert!(parse_index_line(b"not json").is_none());
    // A missing cksum field.
    assert!(parse_index_line(b"{\"name\":\"foo\",\"vers\":\"1.0.0\"}").is_none());
    // A checksum of the wrong length.
    assert!(parse_index_line(line("foo", "1.0.0", "ba7816bf").as_bytes()).is_none());
    // A checksum with a character outside the hexadecimal digits.
    let bad = format!("{}g", &ABC_SHA256[..63]);
    assert!(parse_index_line(line("foo", "1.0.0", &bad).as_bytes()).is_none());
}

#[test]
fn split_keeps_text_between_newlines() {
    let lines = split_lines(&b"one\ntwo\n\nthree".to_vec());
    let texts: Vec<&[u8]> = lines.iter().map(|l| l.as_slice()).collect();
    assert_eq!(
        texts,
        vec![b"one".as_slice(), b"two".as_slice(), b"".as_slice(), b"three".as_slice()]
    );
}

#[test]
fn snapshot_build_skips_bad_lines_and_lets_later_records_win() {
    let file = format!(
        "{}\nnot a json line\n{}\n{}\n",
        line("foo", "1.0.0", EMPTY_SHA256),
        line("bar", "2.0.0", EMPTY_SHA256),
        line("foo", "1.0.0", ABC_SHA256),
    );
    let snap = build_snapshot(&vec![file.into_bytes()]);
    assert_eq!(snap.record_count(), 3);
    // The later record for foo-1.0.0 supersedes the earlier one.
    let ck = snap.lookup(&ident("foo", "1.0.0")).expect("foo is indexed");
    assert_eq!(ck, decode_hex(ABC_SHA256).unwrap());
    let ck = snap.lookup(&ident("bar", "2.0.0")).expect("bar is indexed");
    assert_eq!(ck, decode_hex(EMPTY_SHA256).unwrap());
    assert!(snap.lookup(&ident("foo", "9.9.9")).is_none());
    assert!(snap.lookup(&ident("Foo", "1.0.0")).is_none(), "keys are case-sensitive");
}

#[test]
fn repeated_lookups_agree_without_a_swap() {
    let mut snap = IndexSnapshot::new();
    snap.add(ident("foo", "1.0.0"), decode_hex(ABC_SHA256).unwrap());
    let first = snap.lookup(&ident("foo", "1.0.0"));
    let second = snap.lookup(&ident("foo", "1.0.0"));
    assert_eq!(first, second);
    let absent_twice = (snap.lookup(&ident("zzz", "0.0.1")), snap.lookup(&ident("zzz", "0.0.1")));
    assert_eq!(absent_twice.0, absent_twice.1);
}

#[test]
fn index_paths_follow_the_layout_rules() {
    assert_eq!(index_path("a").unwrap(), "1/a");
    assert_eq!(index_path("ab").unwrap(), "2/ab");
    assert_eq!(index_path("abc").unwrap(), "3/a/abc");
    assert_eq!(index_path("serde").unwrap(), "se/rd/serde");
    assert!(index_path("").is_none());
    // The path is derived from the lowercased name.
    assert_eq!(index_path("Serde_JSON").unwrap(), "se/rd/serde_json");
    assert_eq!(index_path("AB").unwrap(), "2/ab");
}

#[test]
fn sync_pass_refreshes_only_on_full_success() {
    assert_eq!(sync_decision(true, true), SyncOutcome::RefreshSnapshot);
    assert_eq!(sync_decision(false, true), SyncOutcome::KeepPrevious);
    assert_eq!(sync_decision(true, false), SyncOutcome::KeepPrevious);
    assert_eq!(sync_decision(false, false), SyncOutcome::KeepPrevious);
}

#[test]
fn sync_plan_pulls_rebases_then_pushes() {
    let ops = plan_sync();
    assert_eq!(ops.len(), 3);
    assert!(matches!(ops[0], VcsOp::FetchUpstream));
    assert!(matches!(ops[1], VcsOp::RebaseMaster));
    assert!(matches!(ops[2], VcsOp::PushOrigin));
}

#[test]
fn init_plan_runs_once_and_in_order() {
    assert!(plan_init(true, "u", "d", "o").is_empty());
    let steps = plan_init(
        false,
        "https://example.com/index.git",
        "./cache/index",
        "https://example.com/mirror.git",
    );
    assert_eq!(steps.len(), 6);
    match &steps[0] {
        InitStep::Vcs(VcsOp::CloneUpstream { url, dir }) => {
            assert_eq!(url, "https://example.com/index.git");
            assert_eq!(dir, "./cache/index");
        }
        other => panic!("expected the clone first, got {:?}", other),
    }
    match &steps[1] {
        InitStep::Vcs(VcsOp::AddOriginRemote { url }) => {
            assert_eq!(url, "https://example.com/mirror.git");
        }
        other => panic!("expected the origin remote second, got {:?}", other),
    }
    assert!(matches!(steps[2], InitStep::RewriteConfig));
    match &steps[3] {
        InitStep::Vcs(VcsOp::SetConfig { key, .. }) => assert_eq!(key, "user.email"),
        other => panic!("expected the committer email, got {:?}", other),
    }
    match &steps[4] {
        InitStep::Vcs(VcsOp::SetConfig { key, .. }) => assert_eq!(key, "user.name"),
        other => panic!("expected the committer name, got {:?}", other),
    }
    assert!(matches!(&steps[5], InitStep::Vcs(VcsOp::CommitAll { .. })));
}

#[test]
fn failed_sync_keeps_the_old_snapshot_serving() {
    let store = ContentStore::open("/tmp/crates_mirror_test_sync", true).unwrap();
    let mut first = IndexSnapshot::new();
    first.add(ident("foo", "1.0.0"), decode_hex(ABC_SHA256).unwrap());
    let mut ctx = CoreContext::new(store, first, 16);
    // A pass fails: the snapshot is not rebuilt, lookups are unchanged.
    assert_eq!(sync_decision(false, false), SyncOutcome::KeepPrevious);
    assert!(ctx.snapshot.lookup(&ident("foo", "1.0.0")).is_some());
    assert!(ctx.snapshot.lookup(&ident("bar", "2.0.0")).is_none());
    // The next pass succeeds: the new snapshot is swapped in whole.
    assert_eq!(sync_decision(true, true), SyncOutcome::RefreshSnapshot);
    let mut second = IndexSnapshot::new();
    second.add(ident("foo", "1.0.0"), decode_hex(ABC_SHA256).unwrap());
    second.add(ident("bar", "2.0.0"), decode_hex(EMPTY_SHA256).unwrap());
    ctx.install_snapshot(second);
    assert!(ctx.snapshot.lookup(&ident("foo", "1.0.0")).is_some());
    assert!(ctx.snapshot.lookup(&ident("bar", "2.0.0")).is_some());
}

#[test]
fn prefetch_backoff_breaks_after_more_than_ten_failures() {
    let mut count: u32 = 0;
    for expected in 1..=10u32 {
        let (next, keep_going) = prefetch_step(count, false);
        assert_eq!(next, expected);
        assert!(keep_going);
        count = next;
    }
    // The eleventh consecutive failure breaks the pass off.
    let (next, keep_going) = prefetch_step(count, false);
    assert_eq!(next, 11);
    assert!(!keep_going);
    // One success resets the count.
    let (next, keep_going) = prefetch_step(next, true);
    assert_eq!(next, 0);
    assert!(keep_going);
}

#[test]
fn snapshot_records_full_digests() {
    let file = format!("{}\n", line("foo", "1.0.0", ABC_SHA256));
    let snap = build_snapshot(&vec![file.into_bytes()]);
    assert!(snap.is_wf());
    assert!(IndexSnapshot::new().is_wf());
}

#[test]
fn dotted_names_are_skipped_by_the_walk_filter() {
    assert!(is_index_entry_name("se"));
    assert!(is_index_entry_name("serde"));
    assert!(!is_index_entry_name(".git"));
    assert!(!is_index_entry_name("config.json"));
}

#[test]
fn sync_gate_runs_later_steps_only_after_earlier_successes() {
    // A clean pass walks the three operations, then refreshes.
    assert_eq!(sync_advance(0, true), SyncStep::RunNext(1));
    assert_eq!(sync_advance(1, true), SyncStep::RunNext(2));
    assert_eq!(sync_advance(2, true), SyncStep::Refresh);
    // The first failure breaks the pass off, wherever it comes.
    assert_eq!(sync_advance(0, false), SyncStep::Bail);
    assert_eq!(sync_advance(1, false), SyncStep::Bail);
    assert_eq!(sync_advance(2, false), SyncStep::Bail);
}

#[test]
fn vcs_operations_render_their_exact_arguments() {
    assert_eq!(vcs_argv(&VcsOp::FetchUpstream), vec!["fetch", "upstream", "--quiet"]);
    assert_eq!(
        vcs_argv(&VcsOp::RebaseMaster),
        vec!["rebase", "upstream/master", "master", "--quiet"]
    );
    assert_eq!(vcs_argv(&VcsOp::PushOrigin), vec!["push", "--force", "origin", "--quiet"]);
    let clone_op = VcsOp::CloneUpstream {
        url: String::from("https://example.com/i.git"),
        dir: String::from("./idx"),
    };
    assert_eq!(
        vcs_argv(&clone_op),
        vec!["clone", "https://example.com/i.git", "./idx", "--origin", "upstream"]
    );
    assert!(!runs_in_clone(&clone_op));
    assert!(runs_in_clone(&VcsOp::FetchUpstream));
    assert!(runs_in_clone(&VcsOp::PushOrigin));
}
