use vstd::prelude::*;

use crate::candidate::TorrentItem;
use crate::episode::{contains_pair, holds_pair, IMDBEpisode, ItemType};
use crate::quality::MediaQuality;
use crate::search::SearchError;

verus! {

broadcast use Seq::lemma_filter_push;

/// Fewest hours between two passes over the watchlist.
pub const MIN_RECHECK_HOURS: u64 = 6;

/// Seconds in an hour.
pub const ONE_HOUR: u64 = 3600;

/// The tier that the watchlist fetches unless configured otherwise.
pub const TARGET_QUALITY: MediaQuality = MediaQuality::_1080p;

/// Hours between two passes: the configured number, but never fewer than six.
pub open spec fn recheck_hours(configured: i64) -> int {
    if configured > MIN_RECHECK_HOURS as i64 {
        configured as int
    } else {
        MIN_RECHECK_HOURS as int
    }
}

/// The delay between two passes over the watchlist, in seconds; a delay too
/// long for a `u64` is cut to `u64::MAX`.
pub fn recheck_delay_secs(configured_hours: i64) -> (r: u64)
    ensures
        r as int == if recheck_hours(configured_hours) * ONE_HOUR <= u64::MAX {
            recheck_hours(configured_hours) * ONE_HOUR
        } else {
            u64::MAX as int
        },
{
    let hours: u64 = if configured_hours > MIN_RECHECK_HOURS as i64 {
        configured_hours as u64
    } else {
        MIN_RECHECK_HOURS
    };
    match hours.checked_mul(ONE_HOUR) {
        Some(s) => s,
        None => u64::MAX,
    }
}

/// Why the watchlist passed over an item this time.
#[derive(Debug, Clone, Copy, PartialEq, Eq, Structural)]
pub enum SkipReason {
    /// Every episode of the series is in the library already.
    NothingMissing,
    /// Everything that is missing is being downloaded already.
    AlreadyDownloading,
    /// The search found no usable candidate.
    NoCandidates,
    /// No candidate is of the target tier and a single episode or a film.
    NoneAtTarget,
}

pub open spec fn not_available_by(available: Seq<IMDBEpisode>) -> spec_fn(IMDBEpisode) -> bool {
    |e: IMDBEpisode| !holds_pair(available, e.season, e.episode)
}

/// The episodes of a series that the library lacks, in their order; `None`
/// when it lacks none.
pub fn find_missing_tv_shows(all: &Vec<IMDBEpisode>, available: &Vec<IMDBEpisode>) -> (r: Option<Vec<IMDBEpisode>>)
    ensures
        ({
            let rest = all@.filter(not_available_by(available@));
            &&& rest.len() == 0 ==> r.is_none()
            &&& rest.len() > 0 ==> r.is_some() && r.unwrap()@ == rest
        }),
{
    let ghost pred = not_available_by(available@);
    let mut rest: Vec<IMDBEpisode> = Vec::new();
    let mut i: usize = 0;
    while i < all.len()
        invariant
            i <= all.len(),
            pred == not_available_by(available@),
            rest@ == all@.take(i as int).filter(pred),
        decreases all.len() - i,
    {
        assert(all@.take(i + 1) =~= all@.take(i as int).push(all@[i as int]));
        let e = all[i];
        if !contains_pair(available, e.season, e.episode) {
            rest.push(e);
        }
        i += 1;
    }
    assert(all@.take(all.len() as int) =~= all@);
    if rest.len() == 0 {
        None
    } else {
        Some(rest)
    }
}

/// What to search for once the reconciler has spoken: `None` for a film,
/// else the remaining episodes. Nothing is searched for when a download is
/// under way and nothing remains.
pub fn plan_search(is_downloading: bool, remaining: Option<Vec<IMDBEpisode>>) -> (r: Result<Option<Vec<IMDBEpisode>>, SkipReason>)
    ensures
        is_downloading && remaining.is_none() ==> r == Err::<Option<Vec<IMDBEpisode>>, SkipReason>(SkipReason::AlreadyDownloading),
        !(is_downloading && remaining.is_none()) ==> r == Ok::<Option<Vec<IMDBEpisode>>, SkipReason>(remaining),
{
    if is_downloading && remaining.is_none() {
        Err(SkipReason::AlreadyDownloading)
    } else {
        Ok(remaining)
    }
}

/// The watchlist takes a candidate of the target tier that is a film or a
/// single episode, never a whole-season pack.
pub open spec fn fetchable(c: TorrentItem, target: MediaQuality) -> bool {
    c.quality == target && match c.episode {
        Some(e) => e >= 0,
        None => true,
    }
}

pub open spec fn fetchable_by(target: MediaQuality) -> spec_fn(TorrentItem) -> bool {
    |c: TorrentItem| fetchable(c, target)
}

/// What the watchlist does with an item after a successful search.
#[derive(Debug)]
pub struct DownloadPlan {
    /// Record each of these in the download store, then start it.
    pub items: Vec<TorrentItem>,
    /// Take the item off the watchlist once every start succeeded: a film
    /// will not come out again under the same id, a series may get new
    /// seasons.
    pub retire: bool,
}

/// Decides what to download for a watchlist item of `kind` from the outcome
/// of its search, taking candidates of the tier `target`.
pub fn plan_downloads(kind: ItemType, found: Result<Vec<TorrentItem>, SearchError>, target: MediaQuality) -> (r: Result<DownloadPlan, SkipReason>)
    ensures
        match found {
            Err(_) => r == Err::<DownloadPlan, SkipReason>(SkipReason::NoCandidates),
            Ok(v) => {
                let picked = v@.filter(fetchable_by(target));
                &&& picked.len() == 0 ==> r == Err::<DownloadPlan, SkipReason>(SkipReason::NoneAtTarget)
                &&& picked.len() > 0 ==> r.is_ok() && r.unwrap().items@ == picked && r.unwrap().retire == (kind
                    == ItemType::Movie)
            },
        },
{
    match found {
        Err(_) => Err(SkipReason::NoCandidates),
        Ok(v) => {
            let ghost pred = fetchable_by(target);
            let mut picked: Vec<TorrentItem> = Vec::new();
            let mut i: usize = 0;
            while i < v.len()
                invariant
                    i <= v.len(),
                    pred == fetchable_by(target),
                    picked@ == v@.take(i as int).filter(pred),
                decreases v.len() - i,
            {
                assert(v@.take(i + 1) =~= v@.take(i as int).push(v@[i as int]));
                let ok = v[i].quality == target && match v[i].episode {
                    Some(e) => e >= 0,
                    None => true,
                };
                if ok {
                    picked.push(v[i].duplicate());
                }
                i += 1;
            }
            assert(v@.take(v.len() as int) =~= v@);
            if picked.len() == 0 {
                Err(SkipReason::NoneAtTarget)
            } else {
                Ok(DownloadPlan { items: picked, retire: kind == ItemType::Movie })
            }
        },
    }
}

} // verus!
