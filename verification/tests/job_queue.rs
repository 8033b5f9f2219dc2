use chess_db::job_plan::{
    enabled_message, export_path, export_result, find_source, import_is_risky, import_settings,
    index_settings, normalise_refusal, plan_job, refresh_message, refresh_refusal,
    resolutions_message, sync_next, update_done, update_log, update_message, update_next,
    window_message, ExportTo, ImportSettings, IndexSettings, JobPlan, PgnInput, Source, StageEnd,
    SyncNext, SyncStage, UpdateNext, UpdateStage,
};
use chess_db::job_queue::{Begin, Finish, JobManager, Outcome};
use chess_db::jobs::{
    apply_event, blocks_maintenance, buffer_event, is_cancellable, is_invalidation_error,
    is_read_only, job_uses_network, tells_invalidation, uses_appender, JobState, JobStatus, EVENT_BUFFER_CAP,
    OFFLINE_RETRY_MS,
};
use chess_db::params::{ParamValue, Params};
use chess_db::reporter::{final_event, make_event, JobEvent, Report};

/// Ends an attempt, and hands its report on as the server does.
fn finish(m: &mut JobManager, j: usize, outcome: Outcome, now: u64) -> Finish {
    let mut f = m.finish(j, outcome, now);
    if let Some(r) = f.report.take() {
        m.record_event(j, &make_event(r, false), now);
    }
    f
}

fn event(kind: &str, message: &str) -> JobEvent {
    JobEvent { kind: kind.into(), message: message.into(), value: None, total: None, path: None }
}

#[test]
fn reports_become_events() {
    let e = make_event(Report::Progress { current: 3, total: 9, message: "m".into() }, false);
    assert_eq!((e.kind.as_str(), e.value, e.total), ("progress", Some(3), Some(9)));
    let e = make_event(Report::DoneWithPath { message: "m".into(), path: "/p".into() }, false);
    assert_eq!((e.kind.as_str(), e.path.as_deref()), ("done", Some("/p")));
    assert!(final_event(&e));
    let muted = make_event(Report::Done { message: "m".into() }, true);
    assert_eq!(muted.kind, "log", "a step within a job does not end it");
    assert!(!final_event(&muted));
}

#[test]
fn states_follow_events() {
    let mut s = JobState::queued();
    assert!(matches!(s.status, JobStatus::Queued));
    apply_event(&mut s, &event("log", "hello"), 5);
    assert_eq!(s.message, "hello");
    apply_event(&mut s, &event("error", "bad"), 9);
    assert!(matches!(s.status, JobStatus::Error));
    assert_eq!((s.error.as_deref(), s.ended_at), (Some("bad"), Some(9)));
    assert_eq!(JobStatus::Cancelled.name(), "cancelled");
    assert!(JobStatus::Waiting.in_flight() && !JobStatus::Done.in_flight());
}

#[test]
fn buffers_keep_the_latest_events() {
    let mut v = Vec::new();
    for i in 0..EVENT_BUFFER_CAP + 3 {
        buffer_event(&mut v, event("log", &format!("{i}")));
    }
    assert_eq!(v.len(), EVENT_BUFFER_CAP);
    assert_eq!(v[0].message, "3");
}

#[test]
fn kinds_of_jobs() {
    assert!(is_cancellable("import") && job_uses_network("download"));
    assert!(!job_uses_network("dedup_games"));
    assert!(is_read_only("backup") && !is_read_only("import"));
    assert!(uses_appender("import", true));
    assert!(blocks_maintenance("import"));
    assert!(is_invalidation_error("FATAL Error: database has been invalidated because of a previous fatal error"));
    assert!(!is_invalidation_error("boom") && is_invalidation_error("INVALIDATED"));
    assert!(tells_invalidation("was invalidated") && !tells_invalidation("INVALIDATED"));
}

#[test]
fn jobs_run_in_order() {
    let mut m = JobManager::new();
    let a = m.submit("dedup_games".into(), Params::none());
    let b = m.submit("backup".into(), Params::none());
    assert_ne!(a, b);
    assert_eq!(m.get(&b), Some(1));
    assert!(matches!(m.begin(0, 100), Begin::Run));
    assert_eq!(m.snapshot(&a).unwrap().status, "running");
    m.record_event(0, &event("progress", "half"), 120);
    let f = finish(&mut m, 0, Outcome::Finished, 200);
    assert!(f.retry.is_none() && !f.reopen);
    assert_eq!(m.list().len(), 2);
    assert_eq!(m.snapshot("job-99").map(|s| s.id), None);
}

#[test]
fn a_lost_connection_pauses_the_jobs_that_need_one() {
    let mut m = JobManager::new();
    let cluster = m.next_cluster_id();
    assert!(cluster.starts_with("batch-"));
    let a = m.submit_in_cluster("sources_sync".into(), Params::none(), Some(cluster.clone()));
    let b = m.submit("sources_sync".into(), Params::none());
    let c = m.submit("dedup_games".into(), Params::none());
    assert!(matches!(m.begin(0, 100), Begin::Run));
    let f = finish(&mut m, 0, Outcome::Failed { message: "offline".into(), offline: true }, 200);
    assert!(f.retry.is_some());
    let s = m.snapshot(&a).unwrap();
    assert_eq!((s.status.as_str(), s.retry_at), ("waiting", Some(200 + OFFLINE_RETRY_MS)));
    assert!(m.gate_should_hold(1) && !m.gate_should_hold(2));
    assert!(matches!(m.begin(1, 210), Begin::Hold));
    assert!(matches!(m.begin(2, 220), Begin::Run));
    finish(&mut m, 2, Outcome::Finished, 230);
    // Trying again at once: the paused job runs, and releases those held behind it.
    assert_eq!(m.retry_now(&a), Some(0));
    assert!(matches!(m.begin(0, 240), Begin::Run));
    let f = finish(&mut m, 0, Outcome::Finished, 250);
    assert_eq!(f.dispatch, vec![1]);
    assert_eq!(m.snapshot(&b).map(|s| s.status).as_deref(), Some("queued"));
    assert_eq!(m.snapshot(&c).map(|s| s.status).as_deref(), Some("done"));
}

#[test]
fn an_old_timer_does_nothing() {
    let mut m = JobManager::new();
    let a = m.submit("sources_sync".into(), Params::none());
    m.begin(0, 100);
    let gen = finish(&mut m, 0, Outcome::Failed { message: "x".into(), offline: true }, 200).retry.unwrap();
    assert_eq!(m.retry_now(&a), Some(0));
    assert!(!m.timer_fired(0, gen), "it was tried by hand meanwhile");
}

#[test]
fn waiting_jobs_can_be_cancelled() {
    let mut m = JobManager::new();
    let a = m.submit("dedup_games".into(), Params::none());
    let (ok, _) = m.cancel(&a, 50);
    assert!(ok);
    assert!(matches!(m.begin(0, 60), Begin::Skip(_)));
    assert!(!m.cancel("job-99", 50).0);
}

#[test]
fn a_broken_database_is_reopened() {
    let mut m = JobManager::new();
    m.submit("import".into(), Params::none());
    m.begin(0, 1);
    let f = finish(&mut m, 0,
        Outcome::Failed {
            message: "FATAL Error: database has been invalidated because of a previous fatal error".into(),
            offline: false,
        },
        2,
    );
    assert!(f.reopen);
    m.reopened();
    assert!(!m.reopening);
}

#[test]
fn maintenance_waits_for_imports() {
    let mut m = JobManager::new();
    assert_eq!(m.maybe_run_maintenance(), 0);
    m.request_maintenance();
    assert!(m.maintenance_owed());
    m.submit("import".into(), Params::none());
    assert_eq!(m.maybe_run_maintenance(), 0, "an import is still to come");
    m.begin(0, 1);
    finish(&mut m, 0, Outcome::Finished, 2);
    let n = m.maybe_run_maintenance();
    assert!(n > 0);
    assert!(!m.maintenance_owed());
    assert_eq!(m.jobs.len(), 1 + n);
    m.request_maintenance();
    m.clear_maintenance();
    assert!(!m.maintenance_owed());
}

fn params(v: Vec<(&str, ParamValue)>) -> Params {
    Params { entries: v.into_iter().map(|(k, x)| (k.to_string(), x)).collect() }
}

fn catalog() -> Vec<Source> {
    vec![
        Source { key: "twic".into(), name: "TWIC".into(), collection: "TWIC".into() },
        Source { key: "lichess".into(), name: "Lichess".into(), collection: "L".into() },
    ]
}

#[test]
fn jobs_are_planned() {
    let c = catalog();
    assert_eq!(find_source(&c, "lichess"), Some(1));
    let p = params(vec![("source", ParamValue::Text("lichess".into())), ("fast", ParamValue::Bool(true))]);
    assert!(matches!(plan_job("import", &p, &c, None, false), Ok(JobPlan::Import { source: 1, fast: true, .. })));
    let bad = params(vec![("source", ParamValue::Text("x".into()))]);
    assert_eq!(plan_job("import", &bad, &c, None, false).err().unwrap(), "unknown source 'x'");
    assert_eq!(plan_job("nonsense", &Params::none(), &c, None, false).err().unwrap(), "unknown job type: nonsense");
    assert_eq!(plan_job("sources_sync", &Params::none(), &c, None, false).err().unwrap(), "sources_sync: 'source' required");
    assert_eq!(plan_job("backup", &Params::none(), &c, None, false).err().unwrap(), "backup: 'collection' required");
    let p = params(vec![("path", ParamValue::Text("/a.pgn".into())), ("private", ParamValue::Bool(true))]);
    match plan_job("import_pgn", &p, &c, None, false) {
        Ok(JobPlan::ImportPgn { spec, input: PgnInput::File { path, .. }, .. }) => {
            assert_eq!((spec.visibility.as_str(), path.as_str()), ("private", "/a.pgn"));
        }
        _ => panic!(),
    }
    let p = params(vec![("path", ParamValue::Text("~/x".into())), ("dir", ParamValue::Text("~".into()))]);
    match plan_job("import_pgn", &p, &c, Some("/home/me"), false) {
        Ok(JobPlan::ImportPgn { input: PgnInput::File { path, .. }, .. }) => assert_eq!(path, "/home/me/x"),
        _ => panic!(),
    }
    match plan_job("download", &p, &c, Some("/home/me"), false) {
        Ok(JobPlan::Download { dir, .. }) => assert_eq!(dir.as_deref(), Some("/home/me")),
        _ => panic!(),
    }
}

#[test]
fn jobs_import_in_their_own_ways() {
    let c = catalog();
    let p = params(vec![
        ("source", ParamValue::Text("lichess".into())),
        ("path", ParamValue::Text("/a.pgn".into())),
        ("skip_dedup", ParamValue::Bool(true)),
    ]);
    let plan = |t: &str| plan_job(t, &p, &c, None, false).ok().unwrap();
    let set = |depth, threshold, fast, skip_dedup| Some(ImportSettings { depth, threshold, fast, skip_dedup });
    assert_eq!(import_settings(&plan("import")), set(Some(40), 10, false, true));
    assert_eq!(import_settings(&plan("sources_sync")), set(None, 10, true, true));
    assert_eq!(import_settings(&JobPlan::Update), set(None, 0, true, false));
    assert!(matches!(import_settings(&plan("import_pgn")), Some(s) if s.threshold == 10 && !s.fast && s.skip_dedup));
    assert_eq!(import_settings(&plan("normalise")), None);
    assert!(import_is_risky(&plan("sources_sync"), true) && !import_is_risky(&plan("sources_sync"), false));
    assert!(import_is_risky(&plan("import_pgn"), false));
    assert!(!import_is_risky(&plan("import"), true) && !import_is_risky(&JobPlan::Update, true));
    assert_eq!(
        index_settings(&JobPlan::Update),
        Some(IndexSettings { depth: 40, rebuild: false, fast: true })
    );
    assert_eq!(
        index_settings(&JobPlan::IndexPositions { rebuild: true, fast: false }),
        Some(IndexSettings { depth: 40, rebuild: true, fast: false })
    );
    assert_eq!(index_settings(&plan("normalise")), None);
}

#[test]
fn jobs_tell_what_they_did() {
    assert_eq!(
        normalise_refusal(0).as_deref(),
        Some("No FIDE list loaded yet — skipping name normalisation (nothing to do).")
    );
    assert_eq!(normalise_refusal(1), None);
    assert_eq!(
        refresh_refusal(true, false).as_deref(),
        Some("FIDE list is current — no refresh needed.")
    );
    assert_eq!((refresh_refusal(true, true), refresh_refusal(false, false)), (None, None));
    assert_eq!(export_path(&ExportTo::File("/x.csv".into()), "20260603"), "/x.csv");
    assert_eq!(export_path(&ExportTo::Directory("/d".into()), "20260603"), "/d/20260603-players.csv");
    assert_eq!(export_result(2, "/x").as_deref(), Ok("Exported 2 player(s) to /x"));
    assert_eq!(export_result(0, "/x").err().as_deref(), Some("no normalised players to export"));
    assert_eq!(resolutions_message(0, "/x"), "Exported 0 resolution(s) to /x");
    assert_eq!(enabled_message("twic", true), "Source 'twic' enabled.");
    assert_eq!(enabled_message("twic", false), "Source 'twic' disabled.");
    assert_eq!(window_message("twic"), "Updated date window for 'twic'.");
    let names = vec!["TWIC".to_string(), "Lichess".to_string()];
    assert_eq!(update_log(UpdateNext::Download(1), &names).as_deref(), Some("[2/2] Lichess: download"));
    assert_eq!(update_log(UpdateNext::Import(0), &names).as_deref(), Some("TWIC: import (fast)"));
    assert_eq!(update_log(UpdateNext::Normalise, &[]).as_deref(), Some("Normalising players"));
    assert_eq!(update_log(UpdateNext::Complete, &names), None);
    assert_eq!(update_message(UpdateNext::Complete).as_deref(), Some("Database update complete"));
    assert_eq!(
        update_message(UpdateNext::NothingToUpdate).as_deref(),
        Some("No feed sources enabled — nothing to update.")
    );
    assert_eq!(update_message(UpdateNext::Normalise), None);
    assert_eq!(refresh_message(&Ok(5)), "FIDE list refreshed (5 players).");
    assert_eq!(
        refresh_message(&Err("x".into())),
        "FIDE list refresh failed (will retry next update): x"
    );
}

#[test]
fn parameters_are_read_by_name() {
    let p = params(vec![
        ("a", ParamValue::Text("x".into())),
        ("n", ParamValue::Number(Some(3))),
        ("b", ParamValue::Bool(true)),
        ("o", ParamValue::Other),
    ]);
    assert_eq!((p.text("a").as_deref(), p.number("n"), p.flag("b")), (Some("x"), Some(3), true));
    assert_eq!((p.text("n"), p.number("a"), p.flag("a"), p.text("o")), (None, None, false, None));
    assert!(Params::one_flag("f").flag("f"));
}

#[test]
fn a_source_is_synced_in_two_steps() {
    assert!(matches!(sync_next(SyncStage::Downloading, StageEnd::Games(0), false, "T"), SyncNext::Import));
    match sync_next(SyncStage::Importing, StageEnd::Games(0), false, "T") {
        SyncNext::Synced { message, .. } => assert_eq!(message, "T: already up to date — no new games."),
        _ => panic!(),
    }
    match sync_next(SyncStage::Importing, StageEnd::Failed("x".into()), false, "T") {
        SyncNext::Failed { record, error } => assert_eq!((record.as_str(), error.as_str()), ("error: x", "x")),
        _ => panic!(),
    }
}

#[test]
fn an_update_goes_through_all_its_stages() {
    let mut stage = UpdateStage::Start;
    let mut steps = Vec::new();
    loop {
        let next = update_next(stage, 2, true, true, false);
        steps.push(match next {
            UpdateNext::RefreshFideList => "list".to_string(),
            UpdateNext::Download(i) => format!("download {i}"),
            UpdateNext::Import(i) => format!("import {i}"),
            UpdateNext::IndexPositions => "index".to_string(),
            UpdateNext::Normalise => "normalise".to_string(),
            UpdateNext::NothingToUpdate => "nothing".to_string(),
            UpdateNext::Complete => "complete".to_string(),
            UpdateNext::Stopped => "stopped".to_string(),
        });
        match update_done(next) {
            Some(s) => stage = s,
            None => break,
        }
    }
    assert_eq!(steps.first().map(String::as_str), Some("list"));
    assert!(steps.contains(&"download 0".to_string()) && steps.contains(&"import 1".to_string()));
    assert_eq!(steps.last().map(String::as_str), Some("complete"));
}
