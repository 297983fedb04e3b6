use roundup::client::{files_or_none, find_job, Torrent, TorrentFile, TorrentFilePriority, TorrentState};
use roundup::qbittorrent::{QbitState, QbittorrentWrapper};
use roundup::transmission::{TransmissionEntry, TransmissionStatus, TransmissionWrapper};

type Qbit = QbittorrentWrapper<u8>;
type Trans = TransmissionWrapper<u8>;

#[test]
fn qbittorrent_states_map_onto_shared_states() {
    assert!(Qbit::convert_state(&QbitState::StalledDL) == TorrentState::Stalled);
    assert!(Qbit::convert_state(&QbitState::QueuedDL) == TorrentState::Paused);
    assert!(Qbit::convert_state(&QbitState::ForcedUP) == TorrentState::Uploading);
    assert!(Qbit::convert_state(&QbitState::MetaDL) == TorrentState::Starting);
    assert!(Qbit::convert_state(&QbitState::MissingFiles) == TorrentState::Error(Some("MissingFiles".to_string())));
    assert!(Qbit::convert_state(&QbitState::Error) == TorrentState::Error(None));
    assert!(Qbit::convert_state(&QbitState::Moving) == TorrentState::Other("Moving".to_string()));
    assert!(Qbit::convert_state(&QbitState::StalledUP) == TorrentState::StalledUpload);
}

#[test]
fn qbittorrent_priorities() {
    assert_eq!(Qbit::priority_code(TorrentFilePriority::DisallowDownload), 0);
    assert_eq!(Qbit::priority_code(TorrentFilePriority::AllowDownload), 1);
    assert_eq!(Qbit::convert_file(3, 0, "a".to_string()).priority, TorrentFilePriority::DisallowDownload);
    assert_eq!(Qbit::convert_file(3, 7, "a".to_string()).priority, TorrentFilePriority::AllowDownload);
}

#[test]
fn qbittorrent_wrapper_connects() {
    let mut w = Qbit::new();
    assert!(w.client().is_none());
    w.connect(4);
    assert_eq!(w.client(), Some(&4));
}

#[test]
fn transmission_statuses_map_onto_shared_states() {
    assert!(Trans::convert_status(TransmissionStatus::Seeding) == TorrentState::Uploading);
    assert!(Trans::convert_status(TransmissionStatus::Verifying) == TorrentState::Other("Verify".to_string()));
    assert!(Trans::convert_status(TransmissionStatus::QueuedToSeed) == TorrentState::Paused);
    assert!(Trans::convert_status(TransmissionStatus::Downloading) == TorrentState::Downloading);
}

#[test]
fn transmission_ids_for_hashes_skip_incomplete_entries() {
    let entries = vec![
        TransmissionEntry { id: Some(1), hash: Some("aa".to_string()) },
        TransmissionEntry { id: None, hash: Some("bb".to_string()) },
        TransmissionEntry { id: Some(3), hash: None },
        TransmissionEntry { id: Some(4), hash: Some("bb".to_string()) },
        TransmissionEntry { id: Some(5), hash: Some("cc".to_string()) },
    ];
    let hashes = vec!["bb".to_string(), "aa".to_string()];
    assert_eq!(Trans::ids_for_hashes(&entries, &hashes), vec![1, 4]);
}

#[test]
fn transmission_files_are_numbered_by_position() {
    let files = Trans::files_from_names(&vec!["a.mkv".to_string(), "b.txt".to_string()]);
    assert_eq!(files.len(), 2);
    assert_eq!(files[1].id, 1);
    assert_eq!(files[1].file_name, "b.txt");
    assert_eq!(files[0].priority, TorrentFilePriority::AllowDownload);
    assert!(files_or_none(Vec::new()).is_none());
    assert_eq!(files_or_none(vec![TorrentFile::new(0, TorrentFilePriority::AllowDownload, "x".to_string())]).unwrap().len(), 1);
}

#[test]
fn jobs_are_found_by_hash() {
    let jobs = vec![
        Torrent::new(None, "aa".to_string(), TorrentState::Paused, None),
        Torrent::new(Some(2), "bb".to_string(), TorrentState::Stalled, None),
        Torrent::new(Some(3), "bb".to_string(), TorrentState::Completed, None),
    ];
    assert_eq!(find_job(&jobs, &"bb".to_string()), Some(1));
    assert_eq!(find_job(&jobs, &"aa".to_string()), Some(0));
    assert_eq!(find_job(&jobs, &"cc".to_string()), None);
}
