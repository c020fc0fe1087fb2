use mikanplus::download::{
    cleanup_decision, completed_output_file, format_rate, magnet_for_add, magnet_info_hash, merge_trackers,
    task_state_of, trackers, CleanupOutcome, DownloadEvent, DownloadRegistry, FolderTask,
    SessionState, TaskState,
};
use mikanplus::download::{add_error_text, metadata_timeout_text, plain_magnet, snapshot_records, TaskRecord};

#[test]
fn extracts_btih_hex() {
    let magnet = "magnet:?xt=urn:btih:c06e0fa66e76e5f30d10e4b00eaa2472b6d62a37&tr=http%3A%2F%2Ftracker.opentrackr.org%3A1337%2Fannounce&dn=test";
    assert_eq!(
        magnet_info_hash(magnet).as_deref(),
        Some("c06e0fa66e76e5f30d10e4b00eaa2472b6d62a37")
    );
}

#[test]
fn rejects_non_40hex() {
    assert_eq!(magnet_info_hash("magnet:?xt=urn:btih:abc"), None);
    assert_eq!(magnet_info_hash("no-magnet"), None);
}

#[test]
fn info_hash_is_lower_cased() {
    assert_eq!(
        magnet_info_hash("MAGNET:?XT=URN:BTIH:C06E0FA66E76E5F30D10E4B00EAA2472B6D62A37").as_deref(),
        Some("c06e0fa66e76e5f30d10e4b00eaa2472b6d62a37")
    );
}

#[test]
fn rate_text_examples() {
    assert_eq!(format_rate(512), "512 B/s");
    assert_eq!(format_rate(0), "0 B/s");
    assert_eq!(format_rate(1536), "1.5 MB/s");
    assert_eq!(format_rate(1024), "1.0 MB/s");
    assert_eq!(format_rate(1024 * 1024 * 3 / 2), "1.5 MB/s");
}

#[test]
fn rate_text_matches_float_formatting() {
    let fmt = |b: u64| -> String {
        if b >= 1024 * 1024 {
            format!("{:.1} MB/s", b as f64 / 1024.0 / 1024.0)
        } else if b >= 1024 {
            format!("{:.1} MB/s", b as f64 / 1024.0)
        } else {
            format!("{b} B/s")
        }
    };
    let mut samples: Vec<u64> = vec![
        1023, 1024, 1535, 1536, 1537, 2560, 3584, 1048575, 1048576, 1101004, 1101005, 1153433,
        1205862, 1258291, 1572864, 5 * 1048576 + 52428, 5 * 1048576 + 104857,
        (1u64 << 53) + 1, (1u64 << 53) + 3, u64::MAX, u64::MAX - 1024, 12345678901234567,
    ];
    let mut x: u64 = 1;
    for _ in 0..2000 {
        x = x.wrapping_mul(6364136223846793005).wrapping_add(1442695040888963407);
        samples.push(x >> (x % 60));
        samples.push(x);
    }
    for b in samples {
        assert_eq!(format_rate(b), fmt(b), "rate {b}");
    }
}

#[test]
fn trackers_are_merged_without_repeats() {
    let existing = vec!["udp://open.stealth.si:80/announce".to_string(), "udp://x:1/announce".to_string()];
    let merged = merge_trackers(existing);
    assert_eq!(merged[0], "udp://open.stealth.si:80/announce");
    assert_eq!(merged[1], "udp://x:1/announce");
    assert_eq!(merged.len(), 2 + trackers().len() - 1);
    let mut sorted = merged.clone();
    sorted.sort();
    sorted.dedup();
    assert_eq!(sorted.len(), merged.len());
}

#[test]
fn task_states() {
    assert_eq!(task_state_of(SessionState::Initializing, false, None, None), TaskState::Initializing);
    assert_eq!(task_state_of(SessionState::Live, false, None, None), TaskState::Downloading);
    assert_eq!(task_state_of(SessionState::Paused, true, None, None), TaskState::Downloading);
    assert_eq!(task_state_of(SessionState::Live, true, None, Some(true)), TaskState::Completed);
    assert_eq!(task_state_of(SessionState::Live, true, None, None), TaskState::Completed);
    assert_eq!(task_state_of(SessionState::Live, true, None, Some(false)), TaskState::Missing);
    assert_eq!(
        task_state_of(SessionState::Error, false, None, None),
        TaskState::Error("未知错误".to_string())
    );
    assert_eq!(
        task_state_of(SessionState::Error, false, Some("disk".to_string()), None),
        TaskState::Error("disk".to_string())
    );
}

#[test]
fn completed_file_stays_in_folder() {
    assert_eq!(completed_output_file("/v/A - B", "../../etc/passwd"), "/v/A - B/etc passwd");
    assert_eq!(completed_output_file("/v/", "ep01.mkv"), "/v/ep01.mkv");
}

#[test]
fn pending_state_shows_then_cancel_removes_it() {
    let mut reg = DownloadRegistry::new();
    let hash = "0000000000000000000000000000000000000000";
    reg.pending_insert(hash.to_string(), "[测试] 无源任务".to_string(), "/tmp/d".to_string());
    let shown = reg.pending_records();
    assert_eq!(shown.len(), 1);
    assert_eq!(shown[0].id, hash);
    assert_eq!(shown[0].state, TaskState::Initializing);
    reg.cancel(hash);
    assert!(reg.pending_records().is_empty());
    // the add completes later: it must be deleted at once, once
    assert!(reg.add_finished(hash));
    assert!(!reg.add_finished(hash));
}

#[test]
fn events_are_taken_in_order() {
    let mut reg = DownloadRegistry::new();
    reg.add_failed(None, "a".to_string(), "e1".to_string());
    reg.push_event(DownloadEvent::UnsubscribeDone { dir: "/d".to_string() });
    let evs = reg.take_events();
    assert_eq!(evs.len(), 2);
    assert!(matches!(&evs[0], DownloadEvent::AddFailed { title, error } if title == "a" && error == "e1"));
    assert!(reg.take_events().is_empty());
    assert_eq!(reg.snapshot_version(), 0);
}

#[test]
fn snapshot_version_moves_only_on_change() {
    let mut reg = DownloadRegistry::new();
    assert!(!reg.publish_snapshot(vec![]));
    assert_eq!(reg.snapshot_version(), 0);
    assert!(reg.publish_snapshot(vec![session_record("h", "t")]));
    assert_eq!(reg.snapshot_version(), 1);
    // the same records again: nothing changes
    assert!(!reg.publish_snapshot(vec![session_record("h", "t")]));
    assert_eq!(reg.snapshot_version(), 1);
    let mut moved = session_record("h", "t");
    moved.downloaded = 6;
    assert!(reg.publish_snapshot(vec![moved.clone()]));
    assert_eq!(reg.snapshot_version(), 2);
    moved.state = TaskState::Error("x".to_string());
    assert!(reg.publish_snapshot(vec![moved]));
    assert_eq!(reg.snapshot_version(), 3);
    assert!(reg.publish_snapshot(vec![]));
    assert_eq!(reg.snapshot_version(), 4);
}

#[test]
fn cleanup_blocked_while_running() {
    let mut reg = DownloadRegistry::new();
    reg.pending_insert("h2".to_string(), "ep2".to_string(), "/v/A - B".to_string());
    reg.pending_insert("h3".to_string(), "other".to_string(), "/v/C - D".to_string());
    let tasks = vec![
        FolderTask { hash: "h1".to_string(), title: "ep1".to_string(), running: true },
        FolderTask { hash: "h0".to_string(), title: "ep0".to_string(), running: false },
    ];
    match cleanup_decision(&tasks, &reg, "/v/A - B") {
        CleanupOutcome::Blocked(t) => assert_eq!(t, vec!["ep1".to_string(), "ep2".to_string()]),
        CleanupOutcome::Proceed(_) => panic!("must be blocked"),
    }
    let idle = vec![FolderTask { hash: "h0".to_string(), title: "ep0".to_string(), running: false }];
    match cleanup_decision(&idle, &DownloadRegistry::new(), "/v/A - B") {
        CleanupOutcome::Proceed(h) => assert_eq!(h, vec!["h0".to_string()]),
        CleanupOutcome::Blocked(_) => panic!("must proceed"),
    }
}

#[test]
fn magnet_gets_public_trackers() {
    let m = magnet_for_add(
        "magnet:?xt=urn:btih:C06E0FA66E76E5F30D10E4B00EAA2472B6D62A37&dn=x&tr=http%3A%2F%2Fa.example%2Fannounce",
    )
    .unwrap();
    assert!(m.starts_with("magnet:?xt=urn:btih:c06e0fa66e76e5f30d10e4b00eaa2472b6d62a37&tr=http://a.example/announce&tr="));
    assert!(m.contains("&tr=http://tracker.opentrackr.org:1337/announce"));
    assert_eq!(m.matches("tr=").count(), 1 + trackers().len());
    // a tracker already in the link is not repeated
    let again = magnet_for_add(&format!(
        "magnet:?xt=urn:btih:c06e0fa66e76e5f30d10e4b00eaa2472b6d62a37&tr={}",
        "http%3A%2F%2Ftracker.opentrackr.org%3A1337%2Fannounce"
    ))
    .unwrap();
    assert_eq!(again.matches("tr=").count(), trackers().len());
    let bad = magnet_for_add("no-magnet").unwrap_err();
    assert!(bad.starts_with("磁力解析失败: "), "{bad}");
}

fn session_record(id: &str, title: &str) -> TaskRecord {
    TaskRecord {
        id: id.to_string(),
        title: title.to_string(),
        downloaded: 5,
        total: 10,
        download_rate: 1,
        upload_rate: 0,
        state: TaskState::Downloading,
        peers: 3,
        output_file: None,
        output_dir: Some("/v".to_string()),
    }
}

#[test]
fn snapshot_shows_pending_once_then_session_record() {
    let h = "0000000000000000000000000000000000000001";
    let mut reg = DownloadRegistry::new();
    reg.pending_insert(h.to_string(), "[测试] 无源任务".to_string(), "/v".to_string());
    let snap = snapshot_records(reg.pending_records(), &vec![session_record("b", "other")]);
    assert_eq!(snap.len(), 2);
    assert_eq!(snap.iter().filter(|r| r.id == h).count(), 1);
    assert_eq!(snap[0].state, TaskState::Initializing);
    assert_eq!(snap[0].output_dir.as_deref(), Some("/v"));
    assert_eq!(snap[1].id, "b");
    // the session's record of the same task takes its place
    let snap = snapshot_records(reg.pending_records(), &vec![session_record(h, "real")]);
    assert_eq!(snap.len(), 1);
    assert_eq!(snap[0].title, "real");
    assert_eq!(snap[0].state, TaskState::Downloading);
    // cancelled while pending: gone
    reg.cancel(h);
    let snap = snapshot_records(reg.pending_records(), &Vec::new());
    assert!(snap.iter().all(|r| r.id != h));
}

#[test]
fn add_failure_messages() {
    assert_eq!(add_error_text("boom"), "添加任务失败: boom");
    assert_eq!(metadata_timeout_text(60), "获取资源信息超时(60s),该资源可能暂无可用来源");
}

#[test]
fn plain_magnet_form() {
    let h = "c06e0fa66e76e5f30d10e4b00eaa2472b6d62a37";
    assert!(plain_magnet(&format!("magnet:?xt=urn:btih:{h}")));
    assert!(plain_magnet(&format!("magnet:?xt=urn:btih:{h}&dn=x&tr=http%3A%2F%2Fa%2Fannounce")));
    assert!(plain_magnet(&format!("magnet:?xt=urn:btih:{h}#frag")));
    assert!(!plain_magnet(&format!("magnet:?xt=urn:btih:{h}&so=0-18446744073709551615")));
    assert!(!plain_magnet("magnet:?xt=urn:btih:MFRGGZDFMZTWQ2LKNNWG23TPAA======"));
    assert!(!plain_magnet(&format!("magnet:?xt=urn:btmh:1220{}", "A".repeat(56))));
    assert!(!plain_magnet(&format!("magnet:?xt=urn:btih:{h}0")));
    assert!(!plain_magnet(&format!("magnet:?x%74=urn:btih:{h}")));
    assert!(!plain_magnet(&format!("magnet:?x\tt=urn:btih:{h}")));
}

#[test]
fn links_that_would_crash_the_parser_are_refused() {
    let h = "c06e0fa66e76e5f30d10e4b00eaa2472b6d62a37";
    let msg = "磁力解析失败: unsupported magnet link: expected xt=urn:btih: with 40 hex digits and no file selection";
    assert_eq!(
        magnet_for_add(&format!("magnet:?xt=urn:btih:{h}&so=0-18446744073709551615")).unwrap_err(),
        msg
    );
    assert_eq!(
        magnet_for_add("magnet:?xt=urn:btih:MFRGGZDFMZTWQ2LKNNWG23TPAA======").unwrap_err(),
        msg
    );
    assert_eq!(
        magnet_for_add(&format!("magnet:?xt=urn:btmh:1220{}", "A".repeat(56))).unwrap_err(),
        msg
    );
}
