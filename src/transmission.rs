use vstd::prelude::*;

use crate::client::{StateView, TorrentFile, TorrentFilePriority, TorrentState};
use crate::text::{contains_string, holds_text};

verus! {

/// A job status in Transmission's RPC vocabulary.
#[derive(Debug, Clone, Copy, PartialEq, Eq, Structural)]
pub enum TransmissionStatus {
    Stopped,
    QueuedToVerify,
    Verifying,
    QueuedToDownload,
    Downloading,
    QueuedToSeed,
    Seeding,
}

/// The shared state that a Transmission status stands for: stopped and queued
/// jobs count as paused, seeding as uploading.
pub open spec fn transmission_state_view(s: TransmissionStatus) -> StateView {
    match s {
        TransmissionStatus::Stopped => StateView::Paused,
        TransmissionStatus::QueuedToVerify => StateView::Paused,
        TransmissionStatus::Verifying => StateView::Other("Verify"@),
        TransmissionStatus::QueuedToDownload => StateView::Paused,
        TransmissionStatus::Downloading => StateView::Downloading,
        TransmissionStatus::QueuedToSeed => StateView::Paused,
        TransmissionStatus::Seeding => StateView::Uploading,
    }
}

/// One job as Transmission lists it: its numeric id and its info hash, either
/// of which the RPC may leave out.
#[derive(Debug)]
pub struct TransmissionEntry {
    pub id: Option<i64>,
    pub hash: Option<String>,
}

/// The entry has an id and a hash, and the hash is one of `hashes`.
pub open spec fn entry_selected(e: TransmissionEntry, hashes: Seq<String>) -> bool {
    e.id.is_some() && e.hash.is_some() && holds_text(hashes, e.hash.unwrap()@)
}

/// The ids of the selected entries, in listing order.
pub open spec fn selected_ids(es: Seq<TransmissionEntry>, hashes: Seq<String>) -> Seq<i64>
    decreases es.len(),
{
    if es.len() == 0 {
        Seq::empty()
    } else {
        let p = selected_ids(es.drop_last(), hashes);
        if entry_selected(es.last(), hashes) {
            p.push(es.last().id.unwrap())
        } else {
            p
        }
    }
}

/// The Transmission download backend; `C` is the RPC connection, absent until
/// initialisation succeeded.
pub struct TransmissionWrapper<C> {
    client: Option<C>,
}

impl<C> TransmissionWrapper<C> {
    pub closed spec fn spec_client(&self) -> Option<C> {
        self.client
    }

    /// A backend that is not connected yet.
    pub fn new() -> (r: Self)
        ensures
            r.spec_client().is_none(),
    {
        TransmissionWrapper { client: None }
    }

    /// Keeps the connection that initialisation opened.
    pub fn connect(&mut self, client: C)
        ensures
            final(self).spec_client() == Some(client),
    {
        self.client = Some(client);
    }

    /// The open connection, if any.
    pub fn client(&self) -> (r: Option<&C>)
        ensures
            r == match self.spec_client() {
                Some(c) => Some(&c),
                None => None::<&C>,
            },
    {
        self.client.as_ref()
    }

    /// Maps a Transmission status onto the shared states.
    pub fn convert_status(status: TransmissionStatus) -> (r: TorrentState)
        ensures
            r@ == transmission_state_view(status),
    {
        match status {
            TransmissionStatus::Stopped => TorrentState::Paused,
            TransmissionStatus::QueuedToVerify => TorrentState::Paused,
            TransmissionStatus::Verifying => TorrentState::Other(String::from_str("Verify")),
            TransmissionStatus::QueuedToDownload => TorrentState::Paused,
            TransmissionStatus::Downloading => TorrentState::Downloading,
            TransmissionStatus::QueuedToSeed => TorrentState::Paused,
            TransmissionStatus::Seeding => TorrentState::Uploading,
        }
    }

    /// The files of a job from their names: Transmission numbers them by
    /// position and lists no priority, so each is allowed.
    pub fn files_from_names(names: &Vec<String>) -> (r: Vec<TorrentFile>)
        requires
            names@.len() <= i64::MAX,
        ensures
            r@.len() == names@.len(),
            forall|i: int|
                0 <= i < r@.len() ==> (#[trigger] r@[i]).id == i && r@[i].priority == TorrentFilePriority::AllowDownload
                    && r@[i].file_name == names@[i],
    {
        let mut out: Vec<TorrentFile> = Vec::new();
        let mut i: usize = 0;
        while i < names.len()
            invariant
                i <= names.len(),
                names@.len() <= i64::MAX,
                out@.len() == i,
                forall|k: int|
                    0 <= k < i ==> (#[trigger] out@[k]).id == k && out@[k].priority == TorrentFilePriority::AllowDownload
                        && out@[k].file_name == names@[k],
            decreases names.len() - i,
        {
            out.push(TorrentFile::new(i as i64, TorrentFilePriority::AllowDownload, names[i].clone()));
            i += 1;
        }
        out
    }

    /// The ids of the listed jobs whose hash is one of `hashes`; entries
    /// without an id or a hash are passed over.
    pub fn ids_for_hashes(entries: &Vec<TransmissionEntry>, hashes: &Vec<String>) -> (r: Vec<i64>)
        ensures
            r@ == selected_ids(entries@, hashes@),
    {
        let mut out: Vec<i64> = Vec::new();
        let mut i: usize = 0;
        while i < entries.len()
            invariant
                i <= entries.len(),
                out@ == selected_ids(entries@.take(i as int), hashes@),
            decreases entries.len() - i,
        {
            assert(entries@.take(i + 1).drop_last() =~= entries@.take(i as int));
            let e = &entries[i];
            match (&e.id, &e.hash) {
                (Some(id), Some(h)) => {
                    if contains_string(hashes, h) {
                        out.push(*id);
                    }
                },
                _ => {},
            }
            i += 1;
        }
        assert(entries@.take(entries.len() as int) =~= entries@);
        out
    }
}

} // verus!
