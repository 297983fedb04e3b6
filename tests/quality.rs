use roundup::quality::MediaQuality;

const ORDER: [MediaQuality; 9] = [
    MediaQuality::Unknown,
    MediaQuality::Cam,
    MediaQuality::Telesync,
    MediaQuality::_480p,
    MediaQuality::_720p,
    MediaQuality::_1080p,
    MediaQuality::BetterThan1080p,
    MediaQuality::_2160p,
    MediaQuality::_4320p,
];

#[test]
fn floor_keeps_exactly_the_tiers_at_or_above_it() {
    for (i, a) in ORDER.iter().enumerate() {
        for (j, floor) in ORDER.iter().enumerate() {
            assert_eq!(a.at_least(*floor), i >= j, "{:?} against floor {:?}", a, floor);
        }
    }
}

#[test]
fn better_than_1080p_sits_between_1080p_and_2160p() {
    assert!(MediaQuality::BetterThan1080p.at_least(MediaQuality::_1080p));
    assert!(!MediaQuality::_1080p.at_least(MediaQuality::BetterThan1080p));
    assert!(MediaQuality::_2160p.at_least(MediaQuality::BetterThan1080p));
    assert!(!MediaQuality::BetterThan1080p.at_least(MediaQuality::_2160p));
    assert_eq!(MediaQuality::BetterThan1080p.ordinal(), 6);
}

#[test]
fn ordinals_run_from_zero_to_eight() {
    let got: Vec<u8> = ORDER.iter().map(|q| q.ordinal()).collect();
    assert_eq!(got, vec![0, 1, 2, 3, 4, 5, 6, 7, 8]);
}

#[test]
fn labels() {
    assert_eq!(MediaQuality::BetterThan1080p.label(), "Better than 1080p");
    assert_eq!(MediaQuality::_720p.label(), "720p");
    assert_eq!(MediaQuality::Unknown.label(), "Unknown");
}

#[test]
fn config_names() {
    assert_eq!(MediaQuality::from_config("cam"), MediaQuality::Cam);
    assert_eq!(MediaQuality::from_config("ts"), MediaQuality::Telesync);
    assert_eq!(MediaQuality::from_config("tele-sync"), MediaQuality::Telesync);
    assert_eq!(MediaQuality::from_config("720"), MediaQuality::_720p);
    assert_eq!(MediaQuality::from_config("1080p"), MediaQuality::_1080p);
    assert_eq!(MediaQuality::from_config("4k"), MediaQuality::_2160p);
    assert_eq!(MediaQuality::from_config("8K"), MediaQuality::_4320p);
    assert_eq!(MediaQuality::from_config("480p"), MediaQuality::Unknown);
    assert_eq!(MediaQuality::from_config(""), MediaQuality::Unknown);
}

#[test]
fn resolution_words() {
    assert_eq!(MediaQuality::from_resolution("480p"), MediaQuality::_480p);
    assert_eq!(MediaQuality::from_resolution("2160p"), MediaQuality::_2160p);
    assert_eq!(MediaQuality::from_resolution("1080P"), MediaQuality::Unknown);
    assert_eq!(MediaQuality::from_resolution("360p"), MediaQuality::Unknown);
}

#[test]
fn movie_labels_ignore_case() {
    assert_eq!(MediaQuality::from_movie_label("1080P.X265"), MediaQuality::BetterThan1080p);
    assert_eq!(MediaQuality::from_movie_label("720P"), MediaQuality::_720p);
    assert_eq!(MediaQuality::from_movie_label("3D"), MediaQuality::Unknown);
}
