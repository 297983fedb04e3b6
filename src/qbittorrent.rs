use vstd::prelude::*;

use crate::client::{StateView, TorrentFile, TorrentFilePriority, TorrentState};

verus! {

/// A job status in the qBittorrent Web API's own vocabulary.
#[derive(Debug, Clone, Copy, PartialEq, Eq, Structural)]
pub enum QbitState {
    Error,
    MissingFiles,
    Uploading,
    PausedUP,
    QueuedUP,
    StalledUP,
    CheckingUP,
    ForcedUP,
    Allocating,
    Downloading,
    MetaDL,
    PausedDL,
    QueuedDL,
    StalledDL,
    CheckingDL,
    ForceDL,
    CheckingResumeData,
    Moving,
    Unknown,
}

/// The shared state that a qBittorrent status stands for. Queued jobs count as
/// paused, since they wait for a free slot; forced transfers count as plain
/// ones; statuses with no shared meaning keep their name under `Other`.
pub open spec fn qbit_state_view(s: QbitState) -> StateView {
    match s {
        QbitState::Error => StateView::Error(None),
        QbitState::MissingFiles => StateView::Error(Some("MissingFiles"@)),
        QbitState::Uploading => StateView::Uploading,
        QbitState::PausedUP => StateView::Paused,
        QbitState::QueuedUP => StateView::Paused,
        QbitState::StalledUP => StateView::StalledUpload,
        QbitState::CheckingUP => StateView::Other("CheckingUP"@),
        QbitState::ForcedUP => StateView::Uploading,
        QbitState::Allocating => StateView::Other("Allocating"@),
        QbitState::Downloading => StateView::Downloading,
        QbitState::MetaDL => StateView::Starting,
        QbitState::PausedDL => StateView::Paused,
        QbitState::QueuedDL => StateView::Paused,
        QbitState::StalledDL => StateView::Stalled,
        QbitState::CheckingDL => StateView::Other("CheckingDL"@),
        QbitState::ForceDL => StateView::Downloading,
        QbitState::CheckingResumeData => StateView::Other("CheckingResumeData"@),
        QbitState::Moving => StateView::Other("Moving"@),
        QbitState::Unknown => StateView::Other("Unknown"@),
    }
}

/// The priority that qBittorrent's file priority number means: 0 is "do not
/// download", any other number is some level of "download".
pub open spec fn qbit_priority_view(p: i64) -> TorrentFilePriority {
    if p == 0 {
        TorrentFilePriority::DisallowDownload
    } else {
        TorrentFilePriority::AllowDownload
    }
}

/// The qBittorrent download backend; `C` is the connection to its Web API,
/// absent until initialisation succeeded.
pub struct QbittorrentWrapper<C> {
    client: Option<C>,
}

impl<C> QbittorrentWrapper<C> {
    pub closed spec fn spec_client(&self) -> Option<C> {
        self.client
    }

    /// A backend that is not connected yet.
    pub fn new() -> (r: Self)
        ensures
            r.spec_client().is_none(),
    {
        QbittorrentWrapper { client: None }
    }

    /// Keeps the connection that initialisation opened.
    pub fn connect(&mut self, client: C)
        ensures
            final(self).spec_client() == Some(client),
    {
        self.client = Some(client);
    }

    /// The open connection, if any.
    pub fn client(&self) -> (r: Option<&C>)
        ensures
            r == match self.spec_client() {
                Some(c) => Some(&c),
                None => None::<&C>,
            },
    {
        self.client.as_ref()
    }

    /// Maps a qBittorrent status onto the shared states.
    pub fn convert_state(state: &QbitState) -> (r: TorrentState)
        ensures
            r@ == qbit_state_view(*state),
    {
        match state {
            QbitState::Error => TorrentState::Error(None),
            QbitState::MissingFiles => TorrentState::Error(Some(String::from_str("MissingFiles"))),
            QbitState::Uploading => TorrentState::Uploading,
            QbitState::PausedUP => TorrentState::Paused,
            QbitState::QueuedUP => TorrentState::Paused,
            QbitState::StalledUP => TorrentState::StalledUpload,
            QbitState::CheckingUP => TorrentState::Other(String::from_str("CheckingUP")),
            QbitState::ForcedUP => TorrentState::Uploading,
            QbitState::Allocating => TorrentState::Other(String::from_str("Allocating")),
            QbitState::Downloading => TorrentState::Downloading,
            QbitState::MetaDL => TorrentState::Starting,
            QbitState::PausedDL => TorrentState::Paused,
            QbitState::QueuedDL => TorrentState::Paused,
            QbitState::StalledDL => TorrentState::Stalled,
            QbitState::CheckingDL => TorrentState::Other(String::from_str("CheckingDL")),
            QbitState::ForceDL => TorrentState::Downloading,
            QbitState::CheckingResumeData => TorrentState::Other(String::from_str("CheckingResumeData")),
            QbitState::Moving => TorrentState::Other(String::from_str("Moving")),
            QbitState::Unknown => TorrentState::Other(String::from_str("Unknown")),
        }
    }

    /// The qBittorrent priority number for a file priority.
    pub fn priority_code(priority: TorrentFilePriority) -> (r: i64)
        ensures
            qbit_priority_view(r) == priority,
            r == 0 || r == 1,
    {
        match priority {
            TorrentFilePriority::AllowDownload => 1,
            TorrentFilePriority::DisallowDownload => 0,
        }
    }

    /// A file of a job as qBittorrent lists it: its index, priority number and name.
    pub fn convert_file(index: i64, priority: i64, name: String) -> (r: TorrentFile)
        ensures
            r.id == index,
            r.priority == qbit_priority_view(priority),
            r.file_name == name,
    {
        let p = if priority == 0 {
            TorrentFilePriority::DisallowDownload
        } else {
            TorrentFilePriority::AllowDownload
        };
        TorrentFile::new(index, p, name)
    }
}

} // verus!
