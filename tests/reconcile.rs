use roundup::episode::IMDBEpisode;
use roundup::reconcile::is_downloading;

fn eps(v: &[(i32, i32)]) -> Vec<IMDBEpisode> {
    v.iter().map(|(s, e)| IMDBEpisode::new(*s, *e)).collect()
}

fn pairs(v: &[IMDBEpisode]) -> Vec<(i32, i32)> {
    v.iter().map(|e| (e.season, e.episode)).collect()
}

#[test]
fn partially_in_flight_series_reports_the_rest() {
    let desired = eps(&[(1, 1), (1, 2), (2, 1)]);
    let in_flight = eps(&[(1, 1)]);
    let (busy, rest) = is_downloading(Some(&desired), &in_flight);
    assert!(busy);
    assert_eq!(pairs(&rest.unwrap()), vec![(1, 2), (2, 1)]);
}

#[test]
fn nothing_in_flight_reports_everything() {
    let desired = eps(&[(1, 1), (1, 2)]);
    let (busy, rest) = is_downloading(Some(&desired), &eps(&[(3, 3)]));
    assert!(!busy);
    assert_eq!(pairs(&rest.unwrap()), vec![(1, 1), (1, 2)]);
}

#[test]
fn everything_in_flight_reports_none() {
    let desired = eps(&[(1, 1), (1, 2)]);
    let (busy, rest) = is_downloading(Some(&desired), &eps(&[(1, 2), (1, 1)]));
    assert!(busy);
    assert!(rest.is_none());
}

#[test]
fn counts_for_k_of_n_in_flight() {
    let desired = eps(&[(1, 1), (1, 2), (1, 3), (2, 1)]);
    for k in 1..4 {
        let in_flight: Vec<IMDBEpisode> = desired[..k].to_vec();
        let (busy, rest) = is_downloading(Some(&desired), &in_flight);
        assert!(busy);
        assert_eq!(rest.unwrap().len(), desired.len() - k);
    }
}

#[test]
fn film_in_progress_when_a_record_exists() {
    assert_eq!(is_downloading(None, &eps(&[(0, 0)])).0, true);
    assert!(is_downloading(None, &eps(&[(0, 0)])).1.is_none());
    assert_eq!(is_downloading(None, &eps(&[])).0, false);
}
