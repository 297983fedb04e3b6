use vstd::prelude::*;

use crate::episode::ItemType;
use crate::quality::MediaQuality;

verus! {

/// A downloadable search result, as one index provider reported it.
#[derive(Debug)]
pub struct TorrentItem {
    pub imdb_id: String,
    pub name: String,
    pub magnet_uri: String,
    pub quality: MediaQuality,
    pub _type: ItemType,
    pub season: Option<i32>,
    pub episode: Option<i32>,
    pub seeds: Option<u32>,
    pub source: String,
}

impl TorrentItem {
    pub fn new(
        imdb_id: String,
        name: String,
        magnet_uri: String,
        quality: MediaQuality,
        _type: ItemType,
        season: Option<i32>,
        episode: Option<i32>,
        seeds: Option<u32>,
        source: String,
    ) -> (r: TorrentItem)
        ensures
            r == (TorrentItem {
                imdb_id,
                name,
                magnet_uri,
                quality,
                _type,
                season,
                episode,
                seeds,
                source,
            }),
    {
        TorrentItem { imdb_id, name, magnet_uri, quality, _type, season, episode, seeds, source }
    }

    /// The kind under which the download store records the candidate: an
    /// episode of a series when it has an episode number, else a film.
    pub fn record_kind(&self) -> (r: ItemType)
        ensures
            r == (if self.episode.is_some() { ItemType::TvShow } else { ItemType::Movie }),
    {
        match self.episode {
            Some(_) => ItemType::TvShow,
            None => ItemType::Movie,
        }
    }

    /// A field-by-field copy.
    pub fn duplicate(&self) -> (r: TorrentItem)
        ensures
            r == *self,
    {
        TorrentItem {
            imdb_id: self.imdb_id.clone(),
            name: self.name.clone(),
            magnet_uri: self.magnet_uri.clone(),
            quality: self.quality,
            _type: self._type,
            season: self.season,
            episode: self.episode,
            seeds: self.seeds,
            source: self.source.clone(),
        }
    }
}

} // verus!
