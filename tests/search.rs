use roundup::candidate::TorrentItem;
use roundup::episode::{IMDBEpisode, ItemType, SEASON_PACK};
use roundup::quality::MediaQuality;
use roundup::search::{
    dedup_candidates, episode_matches, filter_candidates, rank_candidates, usable_candidates,
    ProviderError, SearchError, Torrenter,
};

fn show(name: &str, q: MediaQuality, s: i32, e: i32, seeds: Option<u32>) -> TorrentItem {
    TorrentItem::new(
        "tt1".to_string(),
        name.to_string(),
        format!("magnet:?xt=urn:btih:{}&dn=x", name),
        q,
        ItemType::TvShow,
        Some(s),
        Some(e),
        seeds,
        "test".to_string(),
    )
}

fn movie(name: &str, q: MediaQuality, seeds: Option<u32>) -> TorrentItem {
    TorrentItem::new(
        "tt2".to_string(),
        name.to_string(),
        format!("magnet:?xt=urn:btih:{}&dn=x", name),
        q,
        ItemType::Movie,
        None,
        None,
        seeds,
        "test".to_string(),
    )
}

fn names(v: &[TorrentItem]) -> Vec<&str> {
    v.iter().map(|c| c.name.as_str()).collect()
}

fn failed() -> Result<Vec<TorrentItem>, ProviderError> {
    Err(ProviderError { message: "unreachable".to_string() })
}

#[test]
fn concurrent_search_merges_ranks_and_dedups() {
    let engine = Torrenter::new(MediaQuality::_720p, vec![]);
    let wanted = vec![IMDBEpisode::new(1, 1)];
    let results = vec![
        failed(),
        Ok(vec![show("b-1080-10", MediaQuality::_1080p, 1, 1, Some(10))]),
        Ok(vec![
            show("c-1080-5", MediaQuality::_1080p, 1, 1, Some(5)),
            show("c-720", MediaQuality::_720p, 1, 1, None),
        ]),
    ];
    let out = engine.find_torrent(&results, Some(&wanted), true).unwrap();
    assert_eq!(names(&out), vec!["b-1080-10", "c-720"]);
}

#[test]
fn higher_seed_copy_wins_whatever_the_provider_order() {
    let engine = Torrenter::new(MediaQuality::_720p, vec![]);
    let wanted = vec![IMDBEpisode::new(1, 1)];
    let results = vec![
        Ok(vec![show("a-1080-5", MediaQuality::_1080p, 1, 1, Some(5))]),
        Ok(vec![show("b-1080-10", MediaQuality::_1080p, 1, 1, Some(10))]),
    ];
    let out = engine.find_torrent(&results, Some(&wanted), true).unwrap();
    assert_eq!(names(&out), vec!["b-1080-10"]);
}

#[test]
fn sequential_search_stops_at_first_usable_provider() {
    let engine = Torrenter::new(MediaQuality::_720p, vec![]);
    let results = vec![
        failed(),
        Ok(vec![movie("too-low", MediaQuality::_480p, Some(50))]),
        Ok(vec![movie("second", MediaQuality::_720p, Some(1)), movie("first", MediaQuality::_1080p, Some(2))]),
        Ok(vec![movie("never", MediaQuality::_2160p, Some(99))]),
    ];
    let out = engine.find_torrent(&results, None, false).unwrap();
    assert_eq!(names(&out), vec!["first", "second"]);
}

#[test]
fn search_with_nothing_usable_fails() {
    let engine = Torrenter::new(MediaQuality::_1080p, vec![]);
    let results = vec![failed(), Ok(vec![]), Ok(vec![movie("low", MediaQuality::_720p, Some(3))])];
    assert_eq!(engine.find_torrent(&results, None, true).unwrap_err(), SearchError::NoCandidates);
    assert_eq!(engine.find_torrent(&results, None, false).unwrap_err(), SearchError::NoCandidates);
    let none: Vec<Result<Vec<TorrentItem>, ProviderError>> = vec![];
    assert_eq!(engine.find_torrent(&none, None, true).unwrap_err(), SearchError::NoCandidates);
}

#[test]
fn season_pack_matches_any_wanted_episode_of_its_season() {
    let wanted = vec![IMDBEpisode::new(2, 7)];
    assert!(episode_matches(Some(2), Some(SEASON_PACK), &wanted));
    assert!(!episode_matches(Some(3), Some(SEASON_PACK), &wanted));
    assert!(episode_matches(Some(2), Some(7), &wanted));
    assert!(!episode_matches(Some(2), Some(8), &wanted));
    assert!(!episode_matches(None, None, &wanted));
}

#[test]
fn filter_drops_below_floor_and_unwanted_episodes() {
    let wanted = vec![IMDBEpisode::new(1, 2)];
    let items = vec![
        show("ok", MediaQuality::_720p, 1, 2, None),
        show("low", MediaQuality::_480p, 1, 2, None),
        show("other", MediaQuality::_1080p, 1, 3, None),
        show("pack", MediaQuality::_1080p, 1, SEASON_PACK, None),
    ];
    let out = filter_candidates(&items, MediaQuality::_720p, Some(&wanted));
    assert_eq!(names(&out), vec!["ok", "pack"]);
    let res: Result<Vec<TorrentItem>, ProviderError> = Ok(items);
    assert_eq!(names(&usable_candidates(&res, MediaQuality::_1080p, None)), vec!["other", "pack"]);
}

#[test]
fn series_rank_by_season_episode_then_tier_then_seeds() {
    let items = vec![
        show("s2e1", MediaQuality::_720p, 2, 1, Some(1)),
        show("s1e2-720", MediaQuality::_720p, 1, 2, Some(9)),
        show("s1e2-1080-low", MediaQuality::_1080p, 1, 2, Some(1)),
        show("s1e2-1080-high", MediaQuality::_1080p, 1, 2, Some(7)),
        show("s1-pack", MediaQuality::_480p, 1, SEASON_PACK, None),
    ];
    let out = rank_candidates(&items, true);
    assert_eq!(names(&out), vec!["s1-pack", "s1e2-1080-high", "s1e2-1080-low", "s1e2-720", "s2e1"]);
}

#[test]
fn films_rank_by_tier_then_seeds_with_unknown_seeds_last() {
    let items = vec![
        movie("720", MediaQuality::_720p, Some(100)),
        movie("1080-none", MediaQuality::_1080p, None),
        movie("1080-3", MediaQuality::_1080p, Some(3)),
        movie("2160", MediaQuality::_2160p, Some(1)),
    ];
    let out = rank_candidates(&items, false);
    assert_eq!(names(&out), vec!["2160", "1080-3", "1080-none", "720"]);
}

#[test]
fn dedup_keeps_first_of_each_run() {
    let items = vec![
        show("a", MediaQuality::_1080p, 1, 1, Some(9)),
        show("b", MediaQuality::_1080p, 1, 1, Some(3)),
        show("c", MediaQuality::_720p, 1, 1, None),
        show("d", MediaQuality::_720p, 1, 2, None),
        show("e", MediaQuality::_720p, 1, SEASON_PACK, None),
    ];
    let once = dedup_candidates(&items, true);
    assert_eq!(names(&once), vec!["a", "c", "d", "e"]);
    let films = vec![
        movie("x", MediaQuality::_1080p, Some(5)),
        movie("y", MediaQuality::_1080p, Some(2)),
        movie("z", MediaQuality::_720p, Some(2)),
    ];
    assert_eq!(names(&dedup_candidates(&films, false)), vec!["x", "z"]);
}

#[test]
fn dedup_twice_is_dedup_once() {
    let items = vec![
        show("a", MediaQuality::_1080p, 1, 1, Some(9)),
        show("b", MediaQuality::_1080p, 1, 1, Some(3)),
        show("c", MediaQuality::_720p, 1, 1, None),
        show("d", MediaQuality::_720p, 1, 1, None),
        show("e", MediaQuality::_1080p, 1, 2, None),
    ];
    let ranked = rank_candidates(&items, true);
    let once = dedup_candidates(&ranked, true);
    let twice = dedup_candidates(&once, true);
    assert_eq!(names(&once), names(&twice));
    assert_eq!(names(&once), vec!["a", "c", "e"]);
}

#[test]
fn record_kind_follows_the_episode_number() {
    assert_eq!(show("s", MediaQuality::_720p, 1, 1, None).record_kind(), ItemType::TvShow);
    assert_eq!(movie("m", MediaQuality::_720p, None).record_kind(), ItemType::Movie);
}

#[test]
fn failing_providers_never_abort_a_search() {
    let engine = Torrenter::new(MediaQuality::_720p, vec![]);
    let results = vec![failed(), Ok(vec![movie("only", MediaQuality::_720p, None)]), failed()];
    assert_eq!(names(&engine.find_torrent(&results, None, true).unwrap()), vec!["only"]);
    assert_eq!(names(&engine.find_torrent(&results, None, false).unwrap()), vec!["only"]);
}

#[test]
fn equal_copies_keep_the_earlier_provider() {
    let engine = Torrenter::new(MediaQuality::_720p, vec![]);
    let wanted = vec![IMDBEpisode::new(1, 1)];
    let results = vec![
        Ok(vec![show("first", MediaQuality::_1080p, 1, 1, Some(4))]),
        Ok(vec![show("second", MediaQuality::_1080p, 1, 1, Some(4))]),
    ];
    assert_eq!(names(&engine.find_torrent(&results, Some(&wanted), true).unwrap()), vec!["first"]);
}

#[test]
fn every_kept_slot_survives() {
    let engine = Torrenter::new(MediaQuality::_720p, vec![]);
    let wanted = vec![IMDBEpisode::new(1, 1), IMDBEpisode::new(1, 2)];
    let results = vec![
        Ok(vec![show("a", MediaQuality::_720p, 1, 2, Some(1)), show("b", MediaQuality::_480p, 1, 1, Some(9))]),
        failed(),
        Ok(vec![show("c", MediaQuality::_1080p, 1, 1, None), show("d", MediaQuality::_720p, 1, 2, Some(3))]),
    ];
    let out = engine.find_torrent(&results, Some(&wanted), true).unwrap();
    assert_eq!(names(&out), vec!["c", "d"]);
}
