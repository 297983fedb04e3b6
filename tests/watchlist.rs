use roundup::candidate::TorrentItem;
use roundup::episode::{IMDBEpisode, ItemType, SEASON_PACK};
use roundup::quality::MediaQuality;
use roundup::search::{ProviderError, SearchError, Torrenter};
use roundup::watchlist::{
    find_missing_tv_shows, plan_downloads, plan_search, recheck_delay_secs, SkipReason, TARGET_QUALITY,
};

fn item(q: MediaQuality, kind: ItemType, episode: Option<i32>) -> TorrentItem {
    TorrentItem::new(
        "tt9".to_string(),
        "n".to_string(),
        "magnet:?xt=urn:btih:abc&dn=n".to_string(),
        q,
        kind,
        episode.map(|_| 1),
        episode,
        Some(1),
        "test".to_string(),
    )
}

#[test]
fn film_without_candidates_is_skipped_and_kept() {
    let engine = Torrenter::new(MediaQuality::_1080p, vec![]);
    let results: Vec<Result<Vec<TorrentItem>, ProviderError>> =
        vec![Ok(vec![item(MediaQuality::_720p, ItemType::Movie, None)])];
    let found = engine.find_torrent(&results, None, true);
    assert_eq!(found.as_ref().unwrap_err(), &SearchError::NoCandidates);
    assert_eq!(plan_downloads(ItemType::Movie, found, TARGET_QUALITY).unwrap_err(), SkipReason::NoCandidates);
}

#[test]
fn film_with_a_target_candidate_is_retired() {
    let engine = Torrenter::new(MediaQuality::_720p, vec![]);
    let results: Vec<Result<Vec<TorrentItem>, ProviderError>> = vec![Ok(vec![
        item(MediaQuality::_720p, ItemType::Movie, None),
        item(MediaQuality::_1080p, ItemType::Movie, None),
    ])];
    let found = engine.find_torrent(&results, None, true);
    let plan = plan_downloads(ItemType::Movie, found, TARGET_QUALITY).unwrap();
    assert!(plan.retire);
    assert_eq!(plan.items.len(), 1);
    assert_eq!(plan.items[0].quality, MediaQuality::_1080p);
}

#[test]
fn series_is_kept_and_season_packs_are_not_fetched() {
    let found = Ok(vec![
        item(MediaQuality::_1080p, ItemType::TvShow, Some(SEASON_PACK)),
        item(MediaQuality::_1080p, ItemType::TvShow, Some(3)),
    ]);
    let plan = plan_downloads(ItemType::TvShow, found, TARGET_QUALITY).unwrap();
    assert!(!plan.retire);
    assert_eq!(plan.items.len(), 1);
    assert_eq!(plan.items[0].episode, Some(3));
    let only_packs = Ok(vec![item(MediaQuality::_1080p, ItemType::TvShow, Some(SEASON_PACK))]);
    assert_eq!(plan_downloads(ItemType::TvShow, only_packs, TARGET_QUALITY).unwrap_err(), SkipReason::NoneAtTarget);
    let wrong_tier = Ok(vec![item(MediaQuality::_2160p, ItemType::Movie, None)]);
    assert_eq!(plan_downloads(ItemType::Movie, wrong_tier, TARGET_QUALITY).unwrap_err(), SkipReason::NoneAtTarget);
}

#[test]
fn nothing_is_searched_while_everything_downloads() {
    assert_eq!(plan_search(true, None).unwrap_err(), SkipReason::AlreadyDownloading);
    assert!(plan_search(false, None).unwrap().is_none());
    let rest = vec![IMDBEpisode::new(1, 2)];
    assert_eq!(plan_search(true, Some(rest.clone())).unwrap().unwrap(), rest);
}

#[test]
fn library_episodes_are_not_missing() {
    let all = vec![IMDBEpisode::new(1, 1), IMDBEpisode::new(1, 2), IMDBEpisode::new(2, 1)];
    let have = vec![IMDBEpisode::new(1, 2)];
    assert_eq!(
        find_missing_tv_shows(&all, &have).unwrap(),
        vec![IMDBEpisode::new(1, 1), IMDBEpisode::new(2, 1)]
    );
    assert!(find_missing_tv_shows(&all, &all).is_none());
    assert!(find_missing_tv_shows(&vec![], &have).is_none());
}

#[test]
fn recheck_delay_is_at_least_six_hours() {
    assert_eq!(recheck_delay_secs(1), 6 * 3600);
    assert_eq!(recheck_delay_secs(-5), 6 * 3600);
    assert_eq!(recheck_delay_secs(6), 6 * 3600);
    assert_eq!(recheck_delay_secs(12), 12 * 3600);
    assert_eq!(recheck_delay_secs(i64::MAX), u64::MAX);
}

#[test]
fn another_target_tier_can_be_chosen() {
    let found = Ok(vec![
        item(MediaQuality::_2160p, ItemType::Movie, None),
        item(MediaQuality::_1080p, ItemType::Movie, None),
    ]);
    let plan = plan_downloads(ItemType::Movie, found, MediaQuality::_2160p).unwrap();
    assert_eq!(plan.items.len(), 1);
    assert_eq!(plan.items[0].quality, MediaQuality::_2160p);
}
