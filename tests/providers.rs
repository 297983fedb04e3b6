use roundup::episode::{IMDBEpisode, ItemType, SEASON_PACK};
use roundup::magnet::{build_magnet, magnet_from_parts, magnet_hash};
use roundup::number::{parse_i32, parse_u32};
use roundup::providers::{
    eztv_item, is_english_release, quality_from_title, rarbg_hit, yts_item, DetailRow, EztvRecord, RarbgRow,
};
use roundup::quality::MediaQuality;

fn record(title: &str, season: &str, episode: &str, seeds: i64, filename: &str) -> EztvRecord {
    EztvRecord {
        filename: filename.to_string(),
        magnet_url: "magnet:?xt=urn:btih:ABC&dn=x".to_string(),
        title: title.to_string(),
        season: season.to_string(),
        episode: episode.to_string(),
        seeds,
    }
}

fn row(name: &str, category: &str, seeds: &str) -> RarbgRow {
    RarbgRow { name: name.to_string(), href: "/post-detail/1/".to_string(), category: category.to_string(), seeds: seeds.to_string() }
}

#[test]
fn eztv_record_becomes_a_candidate() {
    let wanted = vec![IMDBEpisode::new(1, 2)];
    let c = eztv_item(&record("Show S01E02 1080p WEB x264", "1", "2", 12, "show.mkv"), &"tt5".to_string(), &wanted).unwrap();
    assert_eq!(c.name, "Show S01E02  1080p");
    assert_eq!(c.quality, MediaQuality::_1080p);
    assert_eq!(c.season, Some(1));
    assert_eq!(c.episode, Some(2));
    assert_eq!(c.seeds, Some(12));
    assert_eq!(c.source, "EZTV");
    assert_eq!(c.imdb_id, "tt5");
    assert_eq!(c._type, ItemType::TvShow);
}

#[test]
fn eztv_records_that_are_dropped() {
    let wanted = vec![IMDBEpisode::new(1, 2)];
    let id = "tt5".to_string();
    assert!(eztv_item(&record("Show S01E02 1080p", "1", "2", 0, "a"), &id, &wanted).is_none());
    assert!(eztv_item(&record("Show S01E03 1080p", "1", "3", 5, "a"), &id, &wanted).is_none());
    assert!(eztv_item(&record("Show S01E02 1080p", "1", "2", 5, "show.multi.mkv"), &id, &wanted).is_none());
    assert!(eztv_item(&record("Show S01E02 HDTV", "1", "2", 5, "a"), &id, &wanted).is_none());
    assert!(eztv_item(&record("Show S01E02 1080p", "one", "2", 5, "a"), &id, &wanted).is_none());
}

#[test]
fn eztv_complete_season_is_a_pack() {
    let wanted = vec![IMDBEpisode::new(2, 1)];
    let c = eztv_item(&record("Show Season 2 COMPLETE 720p", "2", "0", 3, "a"), &"tt5".to_string(), &wanted).unwrap();
    assert_eq!(c.episode, Some(SEASON_PACK));
    assert_eq!(c.name, "Show Season 2 COMPLETE  720p");
    let other_season = vec![IMDBEpisode::new(3, 1)];
    assert!(eztv_item(&record("Show Season 2 COMPLETE 720p", "2", "0", 3, "a"), &"tt5".to_string(), &other_season).is_none());
    let episode_zero = vec![IMDBEpisode::new(2, 0)];
    let special = eztv_item(&record("Show S02E00 Special 720p", "2", "0", 3, "a"), &"tt5".to_string(), &episode_zero).unwrap();
    assert_eq!(special.episode, Some(0));
}

#[test]
fn title_quality_reads_the_first_resolution_word() {
    assert_eq!(quality_from_title("A 720p B 1080p"), MediaQuality::_720p);
    assert_eq!(quality_from_title("A 360p 1080p"), MediaQuality::Unknown);
    assert_eq!(quality_from_title("no resolution"), MediaQuality::Unknown);
}

#[test]
fn rarbg_rows() {
    let wanted = vec![IMDBEpisode::new(1, 4)];
    let h = rarbg_hit(&row("Show S01E04 1080p WEB", " TV ", " 17 "), Some(&wanted)).unwrap();
    assert_eq!((h.season, h.episode, h.seeds), (Some(1), Some(4), 17));
    assert_eq!(h.quality, MediaQuality::_1080p);
    assert_eq!(h._type, ItemType::TvShow);
    assert_eq!(h.url, "/post-detail/1/");
    let pack = rarbg_hit(&row("Show Season 1 Complete 720p", "Anime", "3"), Some(&wanted)).unwrap();
    assert_eq!((pack.season, pack.episode), (Some(1), Some(SEASON_PACK)));
    let film = rarbg_hit(&row("Film 2020 2160p", "Movies", "2"), None).unwrap();
    assert_eq!((film.season, film.episode, film._type), (None, None, ItemType::Movie));
    assert!(rarbg_hit(&row("Show S01E05 1080p", "TV", "3"), Some(&wanted)).is_none());
    assert!(rarbg_hit(&row("Film HDCAM 1080p", "Movies", "3"), None).is_none());
    assert!(rarbg_hit(&row("Film HD TS 1080p", "Movies", "3"), None).is_none());
    assert!(rarbg_hit(&row("Film 1080p", "Movies", "0"), None).is_none());
    assert!(rarbg_hit(&row("Film 1080p", "XXX", "4"), None).is_none());
    assert!(rarbg_hit(&row("Film 1080p", "Movies", "-4"), None).is_none());
}

#[test]
fn magnet_hash_is_lowercased_and_ends_at_ampersand() {
    assert_eq!(magnet_hash("magnet:?xt=urn:btih:ABCDEF0123&dn=x&tr=y").unwrap(), "abcdef0123");
    assert!(magnet_hash("magnet:?xt=urn:btih:ABCDEF").is_none());
    assert!(magnet_hash("short").is_none());
}

#[test]
fn magnet_links_carry_every_tracker() {
    let trackers = vec!["udp://a:1".to_string(), "udp://b:2".to_string()];
    assert_eq!(magnet_from_parts("H", "T", &trackers), "magnet:?xt=urn:btih:H&dn=T&tr=udp://a:1&tr=udp://b:2");
    assert_eq!(magnet_from_parts("H", "T", &vec![]), "magnet:?xt=urn:btih:H&dn=T&tr=");
    assert_eq!(build_magnet("H", "A Film", &trackers), "magnet:?xt=urn:btih:H&dn=A%20Film&tr=udp://a:1&tr=udp://b:2");
}

#[test]
fn yts_items() {
    let c = yts_item(&"tt7".to_string(), &"Big Film".to_string(), &"HH".to_string(), &"1080p.x265".to_string(), &vec!["t".to_string()]);
    assert_eq!(c.quality, MediaQuality::BetterThan1080p);
    assert_eq!(c.magnet_uri, "magnet:?xt=urn:btih:HH&dn=Big%20Film&tr=t");
    assert_eq!(c.source, "YTS");
    assert_eq!(c._type, ItemType::Movie);
    assert!(c.season.is_none() && c.seeds.is_none());
}

#[test]
fn decimal_numbers() {
    assert_eq!(parse_i32("42"), Some(42));
    assert_eq!(parse_i32("-7"), Some(-7));
    assert_eq!(parse_i32("+7"), Some(7));
    assert_eq!(parse_i32("-2147483648"), Some(i32::MIN));
    assert_eq!(parse_i32("2147483648"), None);
    assert_eq!(parse_i32(""), None);
    assert_eq!(parse_i32("-"), None);
    assert_eq!(parse_i32("1a"), None);
    assert_eq!(parse_u32("4294967295"), Some(u32::MAX));
    assert_eq!(parse_u32("4294967296"), None);
    assert_eq!(parse_u32("-0"), None);
    assert_eq!(parse_u32("+0"), Some(0));
}

#[test]
fn only_english_releases_are_taken() {
    let row = |h: Option<&str>, v: Option<&str>| DetailRow { header: h.map(|s| s.to_string()), value: v.map(|s| s.to_string()) };
    assert!(is_english_release(&vec![row(None, Some("x")), row(Some("Size:"), Some("1 GB")), row(Some("Language:"), Some("English"))]));
    assert!(!is_english_release(&vec![row(Some("Language:"), Some("French")), row(Some("Language:"), Some("English"))]));
    assert!(!is_english_release(&vec![row(Some("Language:"), None)]));
    assert!(!is_english_release(&vec![row(Some("Size:"), Some("English"))]));
}

#[test]
fn steps_after_case_folding_and_trimming() {
    assert!(roundup::providers::is_pack_title("show season 2 complete 720p", 0));
    assert!(roundup::providers::is_pack_title("show s02 720p", 0));
    assert!(!roundup::providers::is_pack_title("show s02e00 720p", 0));
    assert!(!roundup::providers::is_pack_title("show complete 720p", 3));
    assert_eq!(roundup::providers::category_type("Anime"), Some(ItemType::TvShow));
    assert_eq!(roundup::providers::category_type("Movies"), Some(ItemType::Movie));
    assert_eq!(roundup::providers::category_type(" TV "), None);
    assert!(roundup::providers::is_excluded_word("camrip"));
    assert!(!roundup::providers::is_excluded_word("CAMRIP"));
    assert_eq!(roundup::providers::read_episode_code("S03E11"), Some((3, 11)));
    assert_eq!(roundup::providers::read_episode_code("S03-E11"), None);
    assert_eq!(MediaQuality::from_lowered_movie_label("1080p.x265"), MediaQuality::BetterThan1080p);
    assert_eq!(MediaQuality::from_lowered_movie_label("1080P.X265"), MediaQuality::Unknown);
    assert_eq!(roundup::magnet::info_hash_text("magnet:?xt=urn:btih:ABC&dn=x"), Some("ABC"));
}

#[test]
fn trimming_cuts_unicode_white_space() {
    assert_eq!(roundup::text::trim("\u{a0}\tMovies \u{3000}"), "Movies");
    assert_eq!(roundup::text::trim("   "), "");
    assert_eq!(roundup::text::trim("a b"), "a b");
    let film = rarbg_hit(&row("Film 1080p", "\u{a0}Movies\n", "\t5"), None).unwrap();
    assert_eq!(film._type, ItemType::Movie);
    assert_eq!(film.seeds, 5);
}
