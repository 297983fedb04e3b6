use vstd::prelude::*;

verus! {

/// A download backend's status of a job, in the vocabulary shared by all backends.
#[derive(Debug)]
pub enum TorrentState {
    Starting,
    Downloading,
    Stalled,
    Paused,
    Completed,
    Uploading,
    StalledUpload,
    Error(Option<String>),
    Other(String),
}

/// What a `TorrentState` holds, with its texts as character sequences.
pub ghost enum StateView {
    Starting,
    Downloading,
    Stalled,
    Paused,
    Completed,
    Uploading,
    StalledUpload,
    Error(Option<Seq<char>>),
    Other(Seq<char>),
}

impl View for TorrentState {
    type V = StateView;

    open spec fn view(&self) -> StateView {
        match self {
            TorrentState::Starting => StateView::Starting,
            TorrentState::Downloading => StateView::Downloading,
            TorrentState::Stalled => StateView::Stalled,
            TorrentState::Paused => StateView::Paused,
            TorrentState::Completed => StateView::Completed,
            TorrentState::Uploading => StateView::Uploading,
            TorrentState::StalledUpload => StateView::StalledUpload,
            TorrentState::Error(e) => StateView::Error(
                match e {
                    Some(t) => Some(t@),
                    None => None,
                },
            ),
            TorrentState::Other(t) => StateView::Other(t@),
        }
    }
}

impl PartialEq for TorrentState {
    fn eq(&self, o: &TorrentState) -> (r: bool) {
        match (self, o) {
            (TorrentState::Starting, TorrentState::Starting) => true,
            (TorrentState::Downloading, TorrentState::Downloading) => true,
            (TorrentState::Stalled, TorrentState::Stalled) => true,
            (TorrentState::Paused, TorrentState::Paused) => true,
            (TorrentState::Completed, TorrentState::Completed) => true,
            (TorrentState::Uploading, TorrentState::Uploading) => true,
            (TorrentState::StalledUpload, TorrentState::StalledUpload) => true,
            (TorrentState::Error(a), TorrentState::Error(b)) => match (a, b) {
                (Some(x), Some(y)) => *x == *y,
                (None, None) => true,
                _ => false,
            },
            (TorrentState::Other(a), TorrentState::Other(b)) => *a == *b,
            _ => false,
        }
    }
}

impl vstd::std_specs::cmp::PartialEqSpecImpl for TorrentState {
    open spec fn obeys_eq_spec() -> bool {
        true
    }

    open spec fn eq_spec(&self, o: &TorrentState) -> bool {
        self@ == o@
    }
}

impl TorrentState {
    pub open spec fn spec_label(self) -> Seq<char> {
        match self@ {
            StateView::Starting => "Starting"@,
            StateView::Downloading => "Downloading"@,
            StateView::Stalled => "Stalled"@,
            StateView::Paused => "Paused"@,
            StateView::Completed => "Completed"@,
            StateView::Uploading => "Uploading"@,
            StateView::StalledUpload => "StalledUpload"@,
            StateView::Error(Some(t)) => "Error: "@ + t,
            StateView::Error(None) => "Error"@,
            StateView::Other(t) => t,
        }
    }

    /// The text under which the state is shown and stored.
    pub fn label(&self) -> (r: String)
        ensures
            r@ == self.spec_label(),
    {
        match self {
            TorrentState::Starting => String::from_str("Starting"),
            TorrentState::Downloading => String::from_str("Downloading"),
            TorrentState::Stalled => String::from_str("Stalled"),
            TorrentState::Paused => String::from_str("Paused"),
            TorrentState::Completed => String::from_str("Completed"),
            TorrentState::Uploading => String::from_str("Uploading"),
            TorrentState::StalledUpload => String::from_str("StalledUpload"),
            TorrentState::Error(Some(t)) => String::from_str("Error: ").concat(t.as_str()),
            TorrentState::Error(None) => String::from_str("Error"),
            TorrentState::Other(t) => t.clone(),
        }
    }

    /// A copy of the state.
    pub fn duplicate(&self) -> (r: TorrentState)
        ensures
            r@ == self@,
    {
        match self {
            TorrentState::Starting => TorrentState::Starting,
            TorrentState::Downloading => TorrentState::Downloading,
            TorrentState::Stalled => TorrentState::Stalled,
            TorrentState::Paused => TorrentState::Paused,
            TorrentState::Completed => TorrentState::Completed,
            TorrentState::Uploading => TorrentState::Uploading,
            TorrentState::StalledUpload => TorrentState::StalledUpload,
            TorrentState::Error(Some(t)) => TorrentState::Error(Some(t.clone())),
            TorrentState::Error(None) => TorrentState::Error(None),
            TorrentState::Other(t) => TorrentState::Other(t.clone()),
        }
    }

    /// Whether the job is `Completed`.
    pub fn is_completed(&self) -> (r: bool)
        ensures
            r == (self@ == StateView::Completed),
    {
        match self {
            TorrentState::Completed => true,
            _ => false,
        }
    }

    /// Whether the job is `Stalled`.
    pub fn is_stalled(&self) -> (r: bool)
        ensures
            r == (self@ == StateView::Stalled),
    {
        match self {
            TorrentState::Stalled => true,
            _ => false,
        }
    }

    /// Whether the job is `Downloading` or `Stalled`.
    pub fn is_transferring(&self) -> (r: bool)
        ensures
            r == (self@ == StateView::Downloading || self@ == StateView::Stalled),
    {
        match self {
            TorrentState::Downloading => true,
            TorrentState::Stalled => true,
            _ => false,
        }
    }
}

/// Whether a backend fetches a file of a job.
#[derive(Debug, Clone, Copy, PartialEq, Eq, Structural)]
pub enum TorrentFilePriority {
    AllowDownload,
    DisallowDownload,
}

/// One file of a download job.
#[derive(Debug)]
pub struct TorrentFile {
    pub id: i64,
    pub priority: TorrentFilePriority,
    pub file_name: String,
}

impl TorrentFile {
    pub fn new(id: i64, priority: TorrentFilePriority, file_name: String) -> (r: TorrentFile)
        ensures
            r.id == id,
            r.priority == priority,
            r.file_name == file_name,
    {
        TorrentFile { id, priority, file_name }
    }
}

/// A download job as a backend reports it. Its progress, a fraction, is not
/// part of the decisions taken here and travels beside it.
#[derive(Debug)]
pub struct Torrent {
    pub id: Option<i64>,
    pub hash: String,
    pub state: TorrentState,
    pub files: Option<Vec<TorrentFile>>,
}

impl Torrent {
    pub fn new(id: Option<i64>, hash: String, state: TorrentState, files: Option<Vec<TorrentFile>>) -> (r: Torrent)
        ensures
            r.id == id,
            r.hash == hash,
            r.state == state,
            r.files == files,
    {
        Torrent { id, hash, state, files }
    }
}

/// The index of the first job with hash `hash`; `None` when no job has it.
pub fn find_job(jobs: &Vec<Torrent>, hash: &String) -> (r: Option<usize>)
    ensures
        r.is_none() ==> forall|i: int| 0 <= i < jobs@.len() ==> jobs@[i].hash@ != hash@,
        r.is_some() ==> r.unwrap() < jobs@.len() && jobs@[r.unwrap() as int].hash@ == hash@ && forall|i: int|
            0 <= i < r.unwrap() ==> jobs@[i].hash@ != hash@,
{
    let mut i: usize = 0;
    while i < jobs.len()
        invariant
            forall|k: int| 0 <= k < i ==> jobs@[k].hash@ != hash@,
        decreases jobs.len() - i,
    {
        if jobs[i].hash == *hash {
            return Some(i);
        }
        i += 1;
    }
    None
}

/// A file list, or `None` when it is empty, as backends report it.
pub fn files_or_none(files: Vec<TorrentFile>) -> (r: Option<Vec<TorrentFile>>)
    ensures
        files@.len() == 0 ==> r.is_none(),
        files@.len() > 0 ==> r == Some(files),
{
    if files.len() == 0 {
        None
    } else {
        Some(files)
    }
}

} // verus!
