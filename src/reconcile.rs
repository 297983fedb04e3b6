use vstd::prelude::*;

use crate::episode::{contains_pair, holds_pair, IMDBEpisode};

verus! {

broadcast use Seq::lemma_filter_push;

/// The episode is among those already being downloaded.
pub open spec fn in_flight_by(f: Seq<IMDBEpisode>) -> spec_fn(IMDBEpisode) -> bool {
    |e: IMDBEpisode| holds_pair(f, e.season, e.episode)
}

/// The episode is not among those already being downloaded.
pub open spec fn missing_by(f: Seq<IMDBEpisode>) -> spec_fn(IMDBEpisode) -> bool {
    |e: IMDBEpisode| !holds_pair(f, e.season, e.episode)
}

/// What the reconciler reports for an item: whether a download of it is under
/// way, and what is left to fetch. For a film (`desired` is `None`) a download
/// is under way when any record of it is. For a series the remainder is the
/// desired episodes that are not in flight: none left is `(true, None)`; all
/// left is `(false, Some(all))`; some left is `(true, Some(rest))`.
pub open spec fn reconcile(desired: Option<Seq<IMDBEpisode>>, in_flight: Seq<IMDBEpisode>) -> (bool, Option<Seq<IMDBEpisode>>) {
    match desired {
        None => (in_flight.len() > 0, None),
        Some(d) => {
            let rest = d.filter(missing_by(in_flight));
            if rest.len() == 0 {
                (true, None)
            } else if rest.len() == d.len() {
                (false, Some(rest))
            } else {
                (true, Some(rest))
            }
        },
    }
}

/// Decides whether `episodes` (or, when `None`, the film) is already being
/// downloaded and what remains to fetch. `in_flight` holds the records of
/// the item in the download store: for a series its `(season, episode)`
/// pairs, for a film one entry per record.
pub fn is_downloading(episodes: Option<&Vec<IMDBEpisode>>, in_flight: &Vec<IMDBEpisode>) -> (r: (bool, Option<Vec<IMDBEpisode>>))
    ensures
        ({
            let want = reconcile(
                match episodes {
                    Some(v) => Some(v@),
                    None => None,
                },
                in_flight@,
            );
            &&& r.0 == want.0
            &&& r.1.is_some() == want.1.is_some()
            &&& r.1.is_some() ==> r.1.unwrap()@ == want.1.unwrap()
        }),
{
    match episodes {
        None => (in_flight.len() > 0, None),
        Some(d) => {
            let ghost pred = missing_by(in_flight@);
            let mut rest: Vec<IMDBEpisode> = Vec::new();
            let mut i: usize = 0;
            while i < d.len()
                invariant
                    i <= d.len(),
                    pred == missing_by(in_flight@),
                    rest@ == d@.take(i as int).filter(pred),
                decreases d.len() - i,
            {
                assert(d@.take(i + 1) =~= d@.take(i as int).push(d@[i as int]));
                let e = d[i];
                if !contains_pair(in_flight, e.season, e.episode) {
                    rest.push(e);
                }
                i += 1;
            }
            assert(d@.take(d.len() as int) =~= d@);
            if rest.len() == 0 {
                (true, None)
            } else if rest.len() == d.len() {
                (false, Some(rest))
            } else {
                (true, Some(rest))
            }
        },
    }
}

proof fn lemma_filter_split(d: Seq<IMDBEpisode>, f: Seq<IMDBEpisode>)
    ensures
        d.filter(in_flight_by(f)).len() + d.filter(missing_by(f)).len() == d.len(),
        d.filter(in_flight_by(f)).len() == 0 ==> d.filter(missing_by(f)) == d,
    decreases d.len(),
{
    if d.len() > 0 {
        let p = d.drop_last();
        lemma_filter_split(p, f);
        assert(d =~= p.push(d.last()));
        if d.filter(in_flight_by(f)).len() == 0 {
            assert(d.filter(missing_by(f)) =~= d);
        }
    } else {
        assert(d.filter(missing_by(f)) =~= d);
    }
}

/// With `k` of the `n` desired episodes in flight: none in flight (and some
/// desired) reports `(false, Some(all))`; some but not all reports
/// `(true, Some(rest))` with `n - k` left; all reports `(true, None)`.
pub proof fn lemma_reconcile_counts(desired: Seq<IMDBEpisode>, in_flight: Seq<IMDBEpisode>)
    ensures
        ({
            let n = desired.len();
            let k = desired.filter(in_flight_by(in_flight)).len();
            let r = reconcile(Some(desired), in_flight);
            &&& (k == 0 && n > 0 ==> r == (false, Some(desired)))
            &&& (0 < k < n ==> r.0 && r.1.is_some() && r.1.unwrap().len() == n - k)
            &&& (k == n ==> r == (true, None::<Seq<IMDBEpisode>>))
        }),
{
    lemma_filter_split(desired, in_flight);
}

} // verus!
