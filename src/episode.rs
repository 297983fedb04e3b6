use vstd::prelude::*;

verus! {

/// Episode number that stands for a whole season offered as one download.
pub const SEASON_PACK: i32 = -1;

/// Whether a catalog item is a film or a series.
#[derive(Debug, Clone, Copy, PartialEq, Eq, Structural)]
pub enum ItemType {
    Movie,
    TvShow,
}

/// One episode of a series; an `episode` of `SEASON_PACK` means the whole season.
#[derive(Debug, Clone, Copy, PartialEq, Eq, Structural)]
pub struct IMDBEpisode {
    pub season: i32,
    pub episode: i32,
}

impl IMDBEpisode {
    pub fn new(season: i32, episode: i32) -> (r: IMDBEpisode)
        ensures
            r.season == season,
            r.episode == episode,
    {
        IMDBEpisode { season, episode }
    }
}

/// Whether `(season, episode)` stands in `eps`.
pub open spec fn holds_pair(eps: Seq<IMDBEpisode>, season: i32, episode: i32) -> bool {
    exists|i: int| 0 <= i < eps.len() && eps[i].season == season && eps[i].episode == episode
}

/// Whether some entry of `eps` belongs to `season`.
pub open spec fn holds_season(eps: Seq<IMDBEpisode>, season: i32) -> bool {
    exists|i: int| 0 <= i < eps.len() && eps[i].season == season
}

/// No `(season, episode)` pair stands twice in `eps`.
pub open spec fn unique_pairs(eps: Seq<IMDBEpisode>) -> bool {
    forall|i: int, j: int| 0 <= i < j < eps.len() ==> eps[i] != eps[j]
}

/// Whether `(season, episode)` stands in `eps`.
pub fn contains_pair(eps: &Vec<IMDBEpisode>, season: i32, episode: i32) -> (r: bool)
    ensures
        r == holds_pair(eps@, season, episode),
{
    let mut i: usize = 0;
    while i < eps.len()
        invariant
            forall|k: int|
                0 <= k < i ==> !(eps@[k].season == season && eps@[k].episode == episode),
        decreases eps.len() - i,
    {
        if eps[i].season == season && eps[i].episode == episode {
            return true;
        }
        i += 1;
    }
    false
}

/// Whether some entry of `eps` belongs to `season`.
pub fn contains_season(eps: &Vec<IMDBEpisode>, season: i32) -> (r: bool)
    ensures
        r == holds_season(eps@, season),
{
    let mut i: usize = 0;
    while i < eps.len()
        invariant
            forall|k: int| 0 <= k < i ==> eps@[k].season != season,
        decreases eps.len() - i,
    {
        if eps[i].season == season {
            return true;
        }
        i += 1;
    }
    false
}

} // verus!
