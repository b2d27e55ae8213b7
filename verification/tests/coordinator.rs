use backupd::config::{Configuration, RecursionMode, WatchTarget};
use backupd::context::{BackupContext, SourceProbe};
use backupd::errors::BackupError;
use backupd::server::BackupServer;

fn one_config(dir: &str, delay_ms: u64) -> Vec<Configuration> {
    vec![Configuration {
        name: "test".to_string(),
        watch_targets: vec![WatchTarget {
            path: dir.to_string(),
            mode: RecursionMode::Recursive,
        }],
        commit_delay_ms: delay_ms,
    }]
}

fn server(dir: &str, delay_ms: u64) -> BackupServer {
    BackupServer::new(BackupContext::new(one_config(dir, delay_ms), "/backup"))
}

#[test]
fn hold_on_directory_fails_and_mutates_nothing() {
    let mut ctx = BackupContext::new(one_config("/d", 5000), "/backup");
    let p = "/d/sub".to_string();
    let r = ctx.hold(&p, SourceProbe::NotFile, 42);
    assert_eq!(r, Err(BackupError::InvalidInput));
    assert_eq!(ctx.holding_count(), 0);
    assert_eq!(ctx.held_at(&p), None);
    assert_eq!(ctx.mirror_contents(&"/backup/d/sub".to_string()), None);
}

#[test]
fn hold_on_failed_copy_fails_and_mutates_nothing() {
    let mut ctx = BackupContext::new(one_config("/d", 5000), "/backup");
    let p = "/d/a.txt".to_string();
    let r = ctx.hold(&p, SourceProbe::CopyFailed, 42);
    assert_eq!(r, Err(BackupError::Io));
    assert_eq!(ctx.holding_count(), 0);
}

#[test]
fn successful_hold_records_timestamp_at_or_after_start() {
    let mut ctx = BackupContext::new(one_config("/d", 5000), "/backup");
    let p = "/d/a.txt".to_string();
    let start: u64 = 1000;
    let now: u64 = 1003;
    let r = ctx.hold(&p, SourceProbe::Copied { contents: b"abc".to_vec() }, now);
    assert_eq!(r, Ok(()));
    let t = ctx.held_at(&p).expect("entry for the held path");
    assert!(t >= start);
    assert_eq!(t, now);
    assert_eq!(ctx.holding_count(), 1);
}

#[test]
fn repeated_hold_replaces_entry_and_mirror() {
    let mut ctx = BackupContext::new(one_config("/d", 5000), "/backup");
    let p = "/d/a.txt".to_string();
    ctx.hold(&p, SourceProbe::Copied { contents: b"one".to_vec() }, 10)
        .unwrap();
    ctx.hold(&p, SourceProbe::Copied { contents: b"two".to_vec() }, 20)
        .unwrap();
    assert_eq!(ctx.holding_count(), 1);
    assert_eq!(ctx.held_at(&p), Some(20));
    let dest = "/backup/d/a.txt".to_string();
    assert_eq!(ctx.mirror_contents(&dest), Some(&b"two".to_vec()));
}

#[test]
fn single_write_mirrors_bytes_and_one_record() {
    let mut srv = server("/d", 5000);
    let p = "/d/a.txt".to_string();
    let out = srv.on_event(&p, SourceProbe::Copied { contents: b"hello".to_vec() }, 100);
    assert_eq!(out.hold_result, Ok(()));
    let dest = "/backup/d/a.txt".to_string();
    assert_eq!(
        srv.get_context().mirror_contents(&dest),
        Some(&b"hello".to_vec())
    );
    assert_eq!(srv.get_context().holding_count(), 1);
}

#[test]
fn burst_coalesces_to_single_live_job() {
    // three rapid events on one path, all inside the 5 s window
    let mut srv = server("/d", 5000);
    let p = "/d/a.txt".to_string();
    let mut live: Vec<u64> = Vec::new();

    for (i, t) in [1000u64, 2000, 3000].iter().enumerate() {
        let out = srv.on_event(
            &p,
            SourceProbe::Copied { contents: vec![i as u8] },
            *t,
        );
        assert_eq!(out.hold_result, Ok(()));
        if let Some(id) = out.cancelled_job {
            // the superseded job is cancelled strictly before its fire time
            let pos = live.iter().position(|&x| x == id).expect("live handle");
            live.remove(pos);
        }
        let sc = out.scheduled.expect("a fresh job per event");
        assert_eq!(sc.delay_ms, 5000);
        assert_eq!(sc.fire_at_ms, *t + 5000);
        live.push(sc.job_id);
    }

    // exactly one job survived the burst, due 5 s after the last event
    assert_eq!(live.len(), 1);
    assert_eq!(srv.pending_count(), 1);
    let (job_id, fire_at) = srv.pending_for(&p).expect("surviving job");
    assert_eq!(job_id, live[0]);
    assert_eq!(fire_at, 8000);

    // the scheduler fires it once the quiet period has passed
    let was_live = srv.on_job_fired(job_id, &p, fire_at);
    assert!(was_live);
    assert_eq!(srv.pending_count(), 0);
    assert_eq!(srv.pending_for(&p), None);
}

#[test]
fn two_writes_one_second_apart_one_commit_with_second_content() {
    let mut srv = server("/d", 5000);
    let p = "/d/a.txt".to_string();

    let out1 = srv.on_event(&p, SourceProbe::Copied { contents: b"first".to_vec() }, 1000);
    let first = out1.scheduled.expect("job for first write");
    assert_eq!(first.fire_at_ms, 6000);

    let out2 = srv.on_event(&p, SourceProbe::Copied { contents: b"second".to_vec() }, 2000);
    assert_eq!(out2.cancelled_job, Some(first.job_id));
    let second = out2.scheduled.expect("job for second write");
    assert_eq!(second.fire_at_ms, 7000);

    // no commit may fire before 5 s after the second write: the only live
    // job is due exactly then
    assert_eq!(srv.pending_count(), 1);
    let (job_id, fire_at) = srv.pending_for(&p).expect("one live job");
    assert_eq!(job_id, second.job_id);
    assert_eq!(fire_at, 7000);

    // exactly one stage+commit invocation pair is planned when it fires
    let mut commit_pairs = 0;
    assert!(srv.on_job_fired(job_id, &p, 7000));
    let (stage, commit) = srv.get_context().commit_commands();
    commit_pairs += 1;
    assert_eq!(stage.program, "git");
    assert_eq!(commit.program, "git");
    assert_eq!(commit_pairs, 1);
    assert_eq!(srv.pending_count(), 0);

    // the mirror holds the content of the second write
    let dest = "/backup/d/a.txt".to_string();
    assert_eq!(
        srv.get_context().mirror_contents(&dest),
        Some(&b"second".to_vec())
    );
}

#[test]
fn failed_hold_schedules_no_commit_job() {
    // an unreadable path: the dispatcher reports the error, keeps running,
    // and leaves no commit job behind
    let mut srv = server("/d", 5000);
    let p = "/d/unreadable".to_string();
    let out = srv.on_event(&p, SourceProbe::CopyFailed, 500);
    assert_eq!(out.hold_result, Err(BackupError::Io));
    assert_eq!(out.cancelled_job, None);
    assert!(out.scheduled.is_none());
    assert_eq!(srv.pending_count(), 0);
    assert_eq!(srv.get_context().holding_count(), 0);

    // the dispatcher still accepts later events
    let out2 = srv.on_event(&p, SourceProbe::Copied { contents: b"x".to_vec() }, 600);
    assert_eq!(out2.hold_result, Ok(()));
    assert_eq!(srv.pending_count(), 1);
}

#[test]
fn failed_hold_keeps_prior_job_pending() {
    let mut srv = server("/d", 5000);
    let p = "/d/a.txt".to_string();
    let out1 = srv.on_event(&p, SourceProbe::Copied { contents: b"x".to_vec() }, 1000);
    let first = out1.scheduled.unwrap();
    let out2 = srv.on_event(&p, SourceProbe::CopyFailed, 1500);
    assert_eq!(out2.cancelled_job, None);
    assert!(out2.scheduled.is_none());
    // the earlier capture still has its commit job
    let (job_id, fire_at) = srv.pending_for(&p).expect("prior job still live");
    assert_eq!(job_id, first.job_id);
    assert_eq!(fire_at, 6000);
}

#[test]
fn cancel_before_fire_prevents_commit() {
    let mut srv = server("/d", 5000);
    let p = "/d/a.txt".to_string();
    let out1 = srv.on_event(&p, SourceProbe::Copied { contents: b"a".to_vec() }, 1000);
    let first = out1.scheduled.unwrap();
    // a second event at 2000 < 6000 cancels the first job before it fires
    let out2 = srv.on_event(&p, SourceProbe::Copied { contents: b"b".to_vec() }, 2000);
    assert_eq!(out2.cancelled_job, Some(first.job_id));
    // the first job's entry is gone: its body will never be run by a
    // faithful scheduler, and its key is not live
    let (live_id, _) = srv.pending_for(&p).unwrap();
    assert_ne!(live_id, first.job_id);
    assert_eq!(srv.pending_count(), 1);
}

#[test]
fn cancel_after_start_is_noop_and_both_commits_run() {
    // the documented race: the job body has already started when the next
    // event arrives, so its cancel is a no-op and both commits run
    let mut srv = server("/d", 5000);
    let p = "/d/a.txt".to_string();
    let out1 = srv.on_event(&p, SourceProbe::Copied { contents: b"a".to_vec() }, 1000);
    let first = out1.scheduled.unwrap();

    // the job body begins at its fire time: the entry is consumed
    assert!(srv.on_job_fired(first.job_id, &p, 6000));

    // a later event finds nothing to cancel and schedules freshly
    let out2 = srv.on_event(&p, SourceProbe::Copied { contents: b"b".to_vec() }, 6001);
    assert_eq!(out2.cancelled_job, None);
    let second = out2.scheduled.unwrap();

    // the in-flight job's entry was already gone; firing the new one is the
    // second commit to run
    assert!(srv.on_job_fired(second.job_id, &p, 11001));
    assert_eq!(srv.pending_count(), 0);

    // a stale key (fired while superseded) reports not-live
    assert!(!srv.on_job_fired(first.job_id, &p, 12000));
}

#[test]
fn uncovered_path_schedules_nothing() {
    let mut srv = server("/d", 5000);
    let p = "/elsewhere/a.txt".to_string();
    let out = srv.on_event(&p, SourceProbe::Copied { contents: b"x".to_vec() }, 100);
    // the hold itself succeeds; no configuration covers the path, so no
    // commit job is scheduled
    assert_eq!(out.hold_result, Ok(()));
    assert!(out.scheduled.is_none());
    assert_eq!(srv.pending_count(), 0);
    assert_eq!(srv.get_context().holding_count(), 1);
}

#[test]
fn independent_paths_keep_independent_jobs() {
    let mut srv = server("/d", 5000);
    let pa = "/d/a.txt".to_string();
    let pb = "/d/b.txt".to_string();
    let oa = srv.on_event(&pa, SourceProbe::Copied { contents: b"a".to_vec() }, 1000);
    let ob = srv.on_event(&pb, SourceProbe::Copied { contents: b"b".to_vec() }, 1100);
    assert_eq!(oa.cancelled_job, None);
    assert_eq!(ob.cancelled_job, None);
    assert_eq!(srv.pending_count(), 2);
    // a new event for one path supersedes only that path's job
    let oa2 = srv.on_event(&pa, SourceProbe::Copied { contents: b"c".to_vec() }, 1200);
    assert_eq!(oa2.cancelled_job, Some(oa.scheduled.unwrap().job_id));
    assert_eq!(srv.pending_count(), 2);
    let (idb, _) = srv.pending_for(&pb).unwrap();
    assert_eq!(idb, ob.scheduled.unwrap().job_id);
}
