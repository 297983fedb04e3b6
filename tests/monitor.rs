use roundup::client::{Torrent, TorrentFile, TorrentFilePriority, TorrentState};
use roundup::monitor::{disallowed_files, MonitorState, STALL_WINDOW_SECS};

const MINUTE: i64 = 60;

fn job(hash: &str, state: TorrentState, files: Option<Vec<TorrentFile>>) -> Torrent {
    Torrent::new(None, hash.to_string(), state, files)
}

fn file(id: i64, name: &str) -> TorrentFile {
    TorrentFile::new(id, TorrentFilePriority::AllowDownload, name.to_string())
}

fn exts() -> Vec<String> {
    vec![".mkv".to_string(), ".mp4".to_string()]
}

#[test]
fn empty_backend_clears_the_store_and_does_nothing_else() {
    let mut m = MonitorState::new();
    m.note_started(&"abc".to_string());
    let plan = m.tick(&vec![], &exts(), 1_000);
    assert!(plan.clear_store);
    assert!(plan.active.is_empty());
    assert!(plan.updates.is_empty());
    assert!(plan.completed.is_empty());
    assert!(plan.file_filters.is_empty());
    assert!(plan.reannounce.is_empty());
    assert!(m.is_auto(&"abc".to_string()));
}

#[test]
fn stalled_job_is_reannounced_once_per_window() {
    let h = "abc".to_string();
    let mut m = MonitorState::new();
    m.note_started(&h);
    let t0: i64 = 1_700_000_000;
    let stalled = || vec![job("abc", TorrentState::Stalled, None)];

    assert!(m.tick(&stalled(), &exts(), t0).reannounce.is_empty());
    assert!(m.tick(&stalled(), &exts(), t0 + 29 * MINUTE).reannounce.is_empty());
    assert_eq!(m.tick(&stalled(), &exts(), t0 + 30 * MINUTE).reannounce, vec!["abc".to_string()]);
    assert_eq!(m.stall_since(&h), Some(t0 + 30 * MINUTE));
    assert!(m.tick(&stalled(), &exts(), t0 + 59 * MINUTE).reannounce.is_empty());
    assert_eq!(m.tick(&stalled(), &exts(), t0 + 60 * MINUTE).reannounce, vec!["abc".to_string()]);
}

#[test]
fn state_change_restarts_the_stall_clock() {
    let h = "abc".to_string();
    let mut m = MonitorState::new();
    m.note_started(&h);
    assert!(!m.observe_stall(&h, &TorrentState::Stalled, 0));
    assert!(!m.observe_stall(&h, &TorrentState::Downloading, 20 * MINUTE));
    assert_eq!(m.stall_since(&h), Some(20 * MINUTE));
    assert!(!m.observe_stall(&h, &TorrentState::Stalled, 40 * MINUTE));
    assert!(!m.observe_stall(&h, &TorrentState::Stalled, 40 * MINUTE + STALL_WINDOW_SECS - 1));
    assert!(m.observe_stall(&h, &TorrentState::Stalled, 40 * MINUTE + STALL_WINDOW_SECS));
}

#[test]
fn jobs_not_started_by_the_scheduler_are_left_alone() {
    let mut m = MonitorState::new();
    let jobs = vec![job("manual", TorrentState::Stalled, Some(vec![file(0, "sample.exe")]))];
    let plan = m.tick(&jobs, &exts(), 0);
    assert!(plan.file_filters.is_empty());
    assert_eq!(m.stall_since(&"manual".to_string()), None);
    let plan = m.tick(&jobs, &exts(), 10 * STALL_WINDOW_SECS);
    assert!(plan.reannounce.is_empty());
}

#[test]
fn completed_jobs_are_removed_and_forgotten() {
    let mut m = MonitorState::new();
    let done = "done".to_string();
    m.note_started(&done);
    m.mark_filtered(&done);
    let jobs = vec![
        job("done", TorrentState::Completed, None),
        job("other", TorrentState::Paused, None),
    ];
    let plan = m.tick(&jobs, &exts(), 5);
    assert!(!plan.clear_store);
    assert_eq!(plan.completed, vec!["done".to_string()]);
    assert_eq!(plan.active, vec!["done".to_string(), "other".to_string()]);
    assert_eq!(plan.updates.len(), 2);
    assert_eq!(plan.updates[0].state, "Completed");
    assert_eq!(plan.updates[1].hash, "other");
    assert!(!m.is_auto(&done));
    assert!(!m.is_filtered(&done));
}

#[test]
fn unwanted_files_are_switched_off_until_marked_filtered() {
    let h = "abc".to_string();
    let mut m = MonitorState::new();
    m.note_started(&h);
    let jobs = vec![job(
        "abc",
        TorrentState::Downloading,
        Some(vec![file(0, "movie.mkv"), file(1, "readme.txt"), file(2, "x.mp4"), file(3, "sample.exe")]),
    )];
    let plan = m.tick(&jobs, &exts(), 0);
    assert_eq!(plan.file_filters.len(), 1);
    assert_eq!(plan.file_filters[0].hash, "abc");
    assert_eq!(plan.file_filters[0].file_ids, vec![1, 3]);
    m.mark_filtered(&h);
    let plan = m.tick(&jobs, &exts(), 1);
    assert!(plan.file_filters.is_empty());
}

#[test]
fn files_of_allowed_types_only_need_no_filter() {
    let files = vec![file(0, "a.mkv"), file(1, "b.mp4")];
    assert!(disallowed_files(&files, &exts()).is_empty());
    assert_eq!(disallowed_files(&files, &vec![]), vec![0, 1]);
}

#[test]
fn forget_drops_every_note_of_a_job() {
    let h = "abc".to_string();
    let mut m = MonitorState::new();
    m.note_started(&h);
    m.mark_filtered(&h);
    m.observe_stall(&h, &TorrentState::Stalled, 3);
    m.forget(&h);
    assert!(!m.is_auto(&h));
    assert!(!m.is_filtered(&h));
    assert_eq!(m.stall_since(&h), None);
}

#[test]
fn state_labels() {
    assert_eq!(TorrentState::Error(Some("disk".to_string())).label(), "Error: disk");
    assert_eq!(TorrentState::Error(None).label(), "Error");
    assert_eq!(TorrentState::Other("Moving".to_string()).label(), "Moving");
    assert_eq!(TorrentState::StalledUpload.label(), "StalledUpload");
    assert!(TorrentState::Other("x".to_string()) == TorrentState::Other("x".to_string()));
    assert!(TorrentState::Other("x".to_string()) != TorrentState::Other("y".to_string()));
}
