use vstd::multiset::Multiset;
use vstd::prelude::*;

use crate::candidate::TorrentItem;
use crate::episode::{contains_pair, contains_season, holds_pair, holds_season, IMDBEpisode, SEASON_PACK};
use crate::quality::MediaQuality;

verus! {

broadcast use Seq::lemma_filter_push;

/// The episodes wanted by a search, seen as a sequence.
pub open spec fn wanted_view(w: Option<&Vec<IMDBEpisode>>) -> Option<Seq<IMDBEpisode>> {
    match w {
        Some(v) => Some(v@),
        None => None,
    }
}

/// A candidate with a known season and episode is wanted when that exact pair
/// is wanted, or when it is a whole-season pack of a season that any wanted
/// entry belongs to.
pub open spec fn episode_wanted(season: Option<i32>, episode: Option<i32>, wanted: Seq<IMDBEpisode>) -> bool {
    match (season, episode) {
        (Some(s), Some(e)) => holds_pair(wanted, s, e) || (e == SEASON_PACK && holds_season(wanted, s)),
        _ => false,
    }
}

/// Whether a search keeps a candidate: its tier is at or above the floor and,
/// when episodes are wanted, it is one of them.
pub open spec fn kept(c: TorrentItem, floor: MediaQuality, wanted: Option<Seq<IMDBEpisode>>) -> bool {
    c.quality.spec_ordinal() >= floor.spec_ordinal() && match wanted {
        Some(w) => episode_wanted(c.season, c.episode, w),
        None => true,
    }
}

pub open spec fn kept_by(floor: MediaQuality, wanted: Option<Seq<IMDBEpisode>>) -> spec_fn(TorrentItem) -> bool {
    |c: TorrentItem| kept(c, floor, wanted)
}

/// Whether a candidate at `(season, episode)` is one of the wanted episodes.
pub fn episode_matches(season: Option<i32>, episode: Option<i32>, wanted: &Vec<IMDBEpisode>) -> (r: bool)
    ensures
        r == episode_wanted(season, episode, wanted@),
{
    match (season, episode) {
        (Some(s), Some(e)) => contains_pair(wanted, s, e) || (e == SEASON_PACK && contains_season(wanted, s)),
        _ => false,
    }
}

/// Whether a search keeps `c`.
pub fn keeps(c: &TorrentItem, floor: MediaQuality, wanted: Option<&Vec<IMDBEpisode>>) -> (r: bool)
    ensures
        r == kept(*c, floor, wanted_view(wanted)),
{
    if !c.quality.at_least(floor) {
        return false;
    }
    match wanted {
        Some(w) => episode_matches(c.season, c.episode, w),
        None => true,
    }
}

/// The candidates that a search keeps, in their order.
pub fn filter_candidates(items: &Vec<TorrentItem>, floor: MediaQuality, wanted: Option<&Vec<IMDBEpisode>>) -> (r: Vec<TorrentItem>)
    ensures
        r@ == items@.filter(kept_by(floor, wanted_view(wanted))),
{
    let ghost pred = kept_by(floor, wanted_view(wanted));
    let mut out: Vec<TorrentItem> = Vec::new();
    let mut i: usize = 0;
    while i < items.len()
        invariant
            i <= items.len(),
            pred == kept_by(floor, wanted_view(wanted)),
            out@ == items@.take(i as int).filter(pred),
        decreases items.len() - i,
    {
        assert(items@.take(i + 1) =~= items@.take(i as int).push(items@[i as int]));
        if keeps(&items[i], floor, wanted) {
            out.push(items[i].duplicate());
        }
        i += 1;
    }
    assert(items@.take(items.len() as int) =~= items@);
    out
}

/// Sort key of an optional season or episode: an absent one comes first.
pub open spec fn slot_key(o: Option<i32>) -> int {
    match o {
        Some(v) => v as int,
        None => -2147483649,
    }
}

/// Sort key of an optional seed count: an unknown count comes after every known one.
pub open spec fn seed_key(o: Option<u32>) -> int {
    match o {
        Some(v) => v as int,
        None => -1,
    }
}

/// `a` may stand before `b` in a ranked list. For series: ascending season,
/// then ascending episode, then descending tier, then descending seeds. For
/// films: descending tier, then descending seeds.
pub open spec fn ranks_before(a: TorrentItem, b: TorrentItem, shows: bool) -> bool {
    let qa = a.quality.spec_ordinal() as int;
    let qb = b.quality.spec_ordinal() as int;
    let by_tier = qa > qb || (qa == qb && seed_key(a.seeds) >= seed_key(b.seeds));
    if shows {
        let sa = slot_key(a.season);
        let sb = slot_key(b.season);
        let ea = slot_key(a.episode);
        let eb = slot_key(b.episode);
        sa < sb || (sa == sb && (ea < eb || (ea == eb && by_tier)))
    } else {
        by_tier
    }
}

/// Every element of `s` may stand before every later one.
pub open spec fn is_ranked(s: Seq<TorrentItem>, shows: bool) -> bool {
    forall|i: int, j: int| 0 <= i < j < s.len() ==> ranks_before(s[i], s[j], shows)
}

/// `x` put into ranked `s` after every element that may stand before it.
pub open spec fn insert_ranked(s: Seq<TorrentItem>, x: TorrentItem, shows: bool) -> Seq<TorrentItem>
    decreases s.len(),
{
    if s.len() == 0 {
        seq![x]
    } else if ranks_before(s.last(), x, shows) {
        s.push(x)
    } else {
        insert_ranked(s.drop_last(), x, shows).push(s.last())
    }
}

/// `s` in ranked order; elements that tie keep their order (a stable sort).
pub open spec fn rank_seq(s: Seq<TorrentItem>, shows: bool) -> Seq<TorrentItem>
    decreases s.len(),
{
    if s.len() == 0 {
        s
    } else {
        insert_ranked(rank_seq(s.drop_last(), shows), s.last(), shows)
    }
}

fn opt_slot_key(o: Option<i32>) -> (r: i64)
    ensures
        r as int == slot_key(o),
{
    match o {
        Some(v) => v as i64,
        None => -2147483649i64,
    }
}

fn opt_seed_key(o: Option<u32>) -> (r: i64)
    ensures
        r as int == seed_key(o),
{
    match o {
        Some(v) => v as i64,
        None => -1i64,
    }
}

/// Whether `a` may stand before `b` in a ranked list.
pub fn precedes(a: &TorrentItem, b: &TorrentItem, shows: bool) -> (r: bool)
    ensures
        r == ranks_before(*a, *b, shows),
{
    let qa = a.quality.ordinal();
    let qb = b.quality.ordinal();
    let by_tier = qa > qb || (qa == qb && opt_seed_key(a.seeds) >= opt_seed_key(b.seeds));
    if shows {
        let sa = opt_slot_key(a.season);
        let sb = opt_slot_key(b.season);
        let ea = opt_slot_key(a.episode);
        let eb = opt_slot_key(b.episode);
        sa < sb || (sa == sb && (ea < eb || (ea == eb && by_tier)))
    } else {
        by_tier
    }
}

proof fn lemma_insert_ranked_bounded(s: Seq<TorrentItem>, x: TorrentItem, y: TorrentItem, shows: bool)
    requires
        forall|i: int| 0 <= i < s.len() ==> ranks_before(s[i], y, shows),
        ranks_before(x, y, shows),
    ensures
        forall|i: int| 0 <= i < insert_ranked(s, x, shows).len() ==> ranks_before(#[trigger] insert_ranked(s, x, shows)[i], y, shows),
    decreases s.len(),
{
    if s.len() == 0 {
        assert(insert_ranked(s, x, shows) =~= seq![x]);
    } else if ranks_before(s.last(), x, shows) {
        let r = s.push(x);
        assert forall|i: int| 0 <= i < r.len() implies ranks_before(r[i], y, shows) by {
            if i < s.len() {
                assert(r[i] == s[i]);
            }
        }
    } else {
        let d = s.drop_last();
        lemma_insert_ranked_bounded(d, x, y, shows);
        let p = insert_ranked(d, x, shows);
        let r = p.push(s.last());
        assert forall|i: int| 0 <= i < r.len() implies ranks_before(r[i], y, shows) by {
            if i < p.len() {
                assert(r[i] == p[i]);
            } else {
                assert(r[i] == s[s.len() - 1]);
            }
        }
    }
}

proof fn lemma_ranks_before_order(a: TorrentItem, b: TorrentItem, c: TorrentItem, shows: bool)
    ensures
        ranks_before(a, b, shows) || ranks_before(b, a, shows),
        ranks_before(a, b, shows) && ranks_before(b, c, shows) ==> ranks_before(a, c, shows),
{
}

proof fn lemma_insert_ranked(s: Seq<TorrentItem>, x: TorrentItem, shows: bool)
    requires
        is_ranked(s, shows),
    ensures
        is_ranked(insert_ranked(s, x, shows), shows),
        insert_ranked(s, x, shows).to_multiset() == s.to_multiset().insert(x),
    decreases s.len(),
{
    if s.len() == 0 {
        let e = Seq::<TorrentItem>::empty();
        assert(s =~= e);
        assert(seq![x] =~= e.push(x));
        e.to_multiset_ensures();
        assert(e.to_multiset() =~= Multiset::empty()) by {
            e.to_multiset_ensures();
        }
    } else if ranks_before(s.last(), x, shows) {
        s.to_multiset_ensures();
        let r = s.push(x);
        assert forall|i: int, j: int| 0 <= i < j < r.len() implies ranks_before(r[i], r[j], shows) by {
            if j == s.len() {
                if i < s.len() - 1 {
                    lemma_ranks_before_order(s[i], s.last(), x, shows);
                }
            }
        }
    } else {
        let d = s.drop_last();
        let l = s.last();
        assert(s =~= d.push(l));
        lemma_insert_ranked(d, x, shows);
        lemma_ranks_before_order(x, l, x, shows);
        lemma_insert_ranked_bounded(d, x, l, shows);
        let p = insert_ranked(d, x, shows);
        let r = p.push(l);
        assert forall|i: int, j: int| 0 <= i < j < r.len() implies ranks_before(r[i], r[j], shows) by {
            if j == p.len() {
                assert(ranks_before(p[i], l, shows));
            }
        }
        d.to_multiset_ensures();
        p.to_multiset_ensures();
        assert(r.to_multiset() =~= s.to_multiset().insert(x));
    }
}

/// A ranked list is ranked and holds the same elements as its input.
pub proof fn lemma_rank_seq(s: Seq<TorrentItem>, shows: bool)
    ensures
        is_ranked(rank_seq(s, shows), shows),
        rank_seq(s, shows).to_multiset() == s.to_multiset(),
    decreases s.len(),
{
    broadcast use Seq::to_multiset_ensures;

    if s.len() > 0 {
        let d = s.drop_last();
        lemma_rank_seq(d, shows);
        lemma_insert_ranked(rank_seq(d, shows), s.last(), shows);
        assert(s =~= d.push(s.last()));
        d.to_multiset_ensures();
    }
}

/// Candidates in ranked order. Elements that tie on every ranking key keep
/// the order in which they came.
pub fn rank_candidates(items: &Vec<TorrentItem>, shows: bool) -> (r: Vec<TorrentItem>)
    ensures
        r@ == rank_seq(items@, shows),
        is_ranked(r@, shows),
        r@.to_multiset() == items@.to_multiset(),
{
    let mut out: Vec<TorrentItem> = Vec::new();
    let mut i: usize = 0;
    while i < items.len()
        invariant
            i <= items.len(),
            out@ == rank_seq(items@.take(i as int), shows),
        decreases items.len() - i,
    {
        let x = items[i].duplicate();
        let ghost before = out@;
        let mut j: usize = out.len();
        assert(before.take(j as int) =~= before);
        assert(before.skip(j as int) =~= Seq::<TorrentItem>::empty());
        assert(before + Seq::<TorrentItem>::empty() =~= before);
        while j > 0 && !precedes(&out[j - 1], &x, shows)
            invariant
                j <= out.len(),
                out@ == before,
                insert_ranked(before, x, shows) == insert_ranked(before.take(j as int), x, shows) + before.skip(j as int),
            decreases j,
        {
            proof {
                let t = before.take(j as int);
                assert(t.drop_last() =~= before.take(j - 1));
                assert(before.skip(j - 1) =~= seq![before[j - 1]] + before.skip(j as int));
                assert(insert_ranked(t, x, shows) == insert_ranked(before.take(j - 1), x, shows).push(before[j - 1]));
                assert(insert_ranked(before.take(j - 1), x, shows).push(before[j - 1]) + before.skip(j as int)
                    =~= insert_ranked(before.take(j - 1), x, shows) + before.skip(j - 1));
            }
            j -= 1;
        }
        proof {
            if j == 0 {
                assert(before.take(0) =~= Seq::<TorrentItem>::empty());
                assert(before.skip(0) =~= before);
            }
        }
        out.insert(j, x);
        proof {
            assert(out@ =~= insert_ranked(before, x, shows));
            assert(items@.take(i + 1).drop_last() =~= items@.take(i as int));
        }
        i += 1;
    }
    assert(items@.take(items.len() as int) =~= items@);
    proof {
        lemma_rank_seq(items@, shows);
    }
    out
}

/// Two neighbours of a ranked list that offer the same thing: the same tier
/// and, for series, the same season and episode.
pub open spec fn same_slot(a: TorrentItem, b: TorrentItem, shows: bool) -> bool {
    a.quality == b.quality && (!shows || (a.season == b.season && a.episode == b.episode))
}

/// `s` with every element dropped that offers the same thing as the one
/// before it, so that the first of each run stays.
pub open spec fn dedup_seq(s: Seq<TorrentItem>, shows: bool) -> Seq<TorrentItem>
    decreases s.len(),
{
    if s.len() <= 1 {
        s
    } else {
        let p = dedup_seq(s.drop_last(), shows);
        if same_slot(s[s.len() - 2], s.last(), shows) {
            p
        } else {
            p.push(s.last())
        }
    }
}

/// No two neighbours of `s` offer the same thing.
pub open spec fn no_adjacent_repeats(s: Seq<TorrentItem>, shows: bool) -> bool {
    forall|i: int| 0 <= i < s.len() - 1 ==> !same_slot(#[trigger] s[i], s[i + 1], shows)
}

/// Whether `a` and `b` offer the same thing.
pub fn same_offer(a: &TorrentItem, b: &TorrentItem, shows: bool) -> (r: bool)
    ensures
        r == same_slot(*a, *b, shows),
{
    a.quality == b.quality && (!shows || (a.season == b.season && a.episode == b.episode))
}

/// Keeps the first of each run of neighbours that offer the same thing.
pub fn dedup_candidates(items: &Vec<TorrentItem>, shows: bool) -> (r: Vec<TorrentItem>)
    ensures
        r@ == dedup_seq(items@, shows),
        no_adjacent_repeats(r@, shows),
{
    let mut out: Vec<TorrentItem> = Vec::new();
    let mut i: usize = 0;
    while i < items.len()
        invariant
            i <= items.len(),
            out@ == dedup_seq(items@.take(i as int), shows),
        decreases items.len() - i,
    {
        let ghost t = items@.take(i + 1);
        assert(t.drop_last() =~= items@.take(i as int));
        if i == 0 || !same_offer(&items[i - 1], &items[i], shows) {
            proof {
                if i == 0 {
                    assert(t =~= seq![items@[0]]);
                    assert(items@.take(0) =~= Seq::<TorrentItem>::empty());
                    assert(dedup_seq(Seq::<TorrentItem>::empty(), shows) =~= Seq::<TorrentItem>::empty());
                }
            }
            out.push(items[i].duplicate());
            assert(out@ =~= dedup_seq(t, shows));
        }
        i += 1;
    }
    assert(items@.take(items.len() as int) =~= items@);
    proof {
        lemma_dedup_clean(items@, shows);
    }
    out
}

proof fn lemma_dedup_clean(s: Seq<TorrentItem>, shows: bool)
    ensures
        no_adjacent_repeats(dedup_seq(s, shows), shows),
        s.len() > 0 ==> dedup_seq(s, shows).len() > 0 && same_slot(dedup_seq(s, shows).last(), s.last(), shows),
    decreases s.len(),
{
    if s.len() > 1 {
        let d = s.drop_last();
        lemma_dedup_clean(d, shows);
        let p = dedup_seq(d, shows);
        if !same_slot(s[s.len() - 2], s.last(), shows) {
            let r = p.push(s.last());
            assert forall|i: int| 0 <= i < r.len() - 1 implies !same_slot(#[trigger] r[i], r[i + 1], shows) by {
                if i < p.len() - 1 {
                    assert(r[i] == p[i] && r[i + 1] == p[i + 1]);
                }
            }
        }
    }
}

proof fn lemma_dedup_of_clean(s: Seq<TorrentItem>, shows: bool)
    requires
        no_adjacent_repeats(s, shows),
    ensures
        dedup_seq(s, shows) == s,
    decreases s.len(),
{
    if s.len() > 1 {
        let d = s.drop_last();
        assert(no_adjacent_repeats(d, shows)) by {
            assert forall|i: int| 0 <= i < d.len() - 1 implies !same_slot(#[trigger] d[i], d[i + 1], shows) by {
                assert(d[i] == s[i] && d[i + 1] == s[i + 1]);
            }
        }
        lemma_dedup_of_clean(d, shows);
        assert(!same_slot(s[s.len() - 2], s.last(), shows));
        assert(d.push(s.last()) =~= s);
    }
}

/// `x` stands somewhere in `s`.
pub open spec fn stands_in(x: TorrentItem, s: Seq<TorrentItem>) -> bool {
    exists|j: int| 0 <= j < s.len() && s[j] == x
}

proof fn lemma_dedup_from(s: Seq<TorrentItem>, shows: bool)
    ensures
        forall|k: int| 0 <= k < dedup_seq(s, shows).len() ==> stands_in(#[trigger] dedup_seq(s, shows)[k], s),
    decreases s.len(),
{
    let r = dedup_seq(s, shows);
    if s.len() > 1 {
        let d = s.drop_last();
        lemma_dedup_from(d, shows);
        let p = dedup_seq(d, shows);
        assert forall|k: int| 0 <= k < r.len() implies stands_in(#[trigger] r[k], s) by {
            if k < p.len() {
                assert(stands_in(p[k], d));
                let j = choose|j: int| 0 <= j < d.len() && d[j] == p[k];
                assert(r[k] == s[j]);
            } else {
                assert(r[k] == s[s.len() - 1]);
            }
        }
    } else {
        assert forall|k: int| 0 <= k < r.len() implies stands_in(#[trigger] r[k], s) by {
            assert(r[k] == s[k]);
        }
    }
}

/// Dropping repeats from a ranked list leaves it ranked.
pub proof fn lemma_dedup_keeps_ranking(s: Seq<TorrentItem>, shows: bool)
    requires
        is_ranked(s, shows),
    ensures
        is_ranked(dedup_seq(s, shows), shows),
    decreases s.len(),
{
    if s.len() > 1 {
        let d = s.drop_last();
        assert(is_ranked(d, shows)) by {
            assert forall|i: int, j: int| 0 <= i < j < d.len() implies ranks_before(d[i], d[j], shows) by {
                assert(d[i] == s[i] && d[j] == s[j]);
            }
        }
        lemma_dedup_keeps_ranking(d, shows);
        lemma_dedup_from(d, shows);
        let p = dedup_seq(d, shows);
        let r = dedup_seq(s, shows);
        if r != p {
            assert forall|i: int, j: int| 0 <= i < j < r.len() implies ranks_before(r[i], r[j], shows) by {
                if j == p.len() {
                    assert(stands_in(p[i], d));
                    let k = choose|k: int| 0 <= k < d.len() && d[k] == p[i];
                    assert(r[i] == s[k]);
                    assert(r[j] == s[s.len() - 1]);
                } else {
                    assert(r[i] == p[i] && r[j] == p[j]);
                }
            }
        }
    }
}

/// Removing repeats a second time changes nothing.
pub proof fn lemma_dedup_idempotent(s: Seq<TorrentItem>, shows: bool)
    ensures
        dedup_seq(dedup_seq(s, shows), shows) == dedup_seq(s, shows),
{
    lemma_dedup_clean(s, shows);
    lemma_dedup_of_clean(dedup_seq(s, shows), shows);
}

/// The quality floor keeps a candidate exactly when its tier is at or above
/// the floor in the tier order.
pub proof fn lemma_floor_filter(c: TorrentItem, floor: MediaQuality)
    ensures
        kept(c, floor, None) == (c.quality.spec_ordinal() >= floor.spec_ordinal()),
{
}

/// A whole-season pack matches every wanted entry of its season, whatever the
/// entry's episode number.
pub proof fn lemma_season_pack_matches(wanted: Seq<IMDBEpisode>, i: int)
    requires
        0 <= i < wanted.len(),
    ensures
        episode_wanted(Some(wanted[i].season), Some(SEASON_PACK), wanted),
{
}

/// Why one index provider gave nothing.
#[derive(Debug)]
pub struct ProviderError {
    pub message: String,
}

/// Why a search as a whole gave nothing.
#[derive(Debug, Clone, Copy, PartialEq, Eq, Structural)]
pub enum SearchError {
    /// Every provider failed, found nothing, or found only what the search drops.
    NoCandidates,
}

/// What one provider's answer contributes: the candidates that the search keeps.
pub open spec fn usable(res: Result<Vec<TorrentItem>, ProviderError>, floor: MediaQuality, wanted: Option<Seq<IMDBEpisode>>) -> Seq<TorrentItem> {
    match res {
        Ok(v) => v@.filter(kept_by(floor, wanted)),
        Err(_) => Seq::empty(),
    }
}

/// What all providers contribute, in provider order.
pub open spec fn merged(rs: Seq<Result<Vec<TorrentItem>, ProviderError>>, floor: MediaQuality, wanted: Option<Seq<IMDBEpisode>>) -> Seq<TorrentItem>
    decreases rs.len(),
{
    if rs.len() == 0 {
        Seq::empty()
    } else {
        merged(rs.drop_last(), floor, wanted) + usable(rs.last(), floor, wanted)
    }
}

/// What the first provider with anything usable contributes.
pub open spec fn first_usable(rs: Seq<Result<Vec<TorrentItem>, ProviderError>>, floor: MediaQuality, wanted: Option<Seq<IMDBEpisode>>) -> Seq<TorrentItem>
    decreases rs.len(),
{
    if rs.len() == 0 {
        Seq::empty()
    } else {
        let f = first_usable(rs.drop_last(), floor, wanted);
        if f.len() > 0 {
            f
        } else {
            usable(rs.last(), floor, wanted)
        }
    }
}

/// The result of a search over the providers' answers `rs`, given in the
/// fixed provider order: with `concurrent`, everything usable from every
/// provider; else what the first provider with anything usable gave. That
/// pool is ranked and repeats are dropped; an empty pool is `NoCandidates`.
pub open spec fn search_outcome(
    rs: Seq<Result<Vec<TorrentItem>, ProviderError>>,
    floor: MediaQuality,
    wanted: Option<Seq<IMDBEpisode>>,
    concurrent: bool,
) -> Result<Seq<TorrentItem>, SearchError> {
    let pool = if concurrent { merged(rs, floor, wanted) } else { first_usable(rs, floor, wanted) };
    if pool.len() == 0 {
        Err(SearchError::NoCandidates)
    } else {
        Ok(dedup_seq(rank_seq(pool, wanted.is_some()), wanted.is_some()))
    }
}

/// The candidates of one provider's answer that a search keeps; nothing when
/// the provider failed.
pub fn usable_candidates(res: &Result<Vec<TorrentItem>, ProviderError>, floor: MediaQuality, wanted: Option<&Vec<IMDBEpisode>>) -> (r: Vec<TorrentItem>)
    ensures
        r@ == usable(*res, floor, wanted_view(wanted)),
{
    match res {
        Ok(v) => filter_candidates(v, floor, wanted),
        Err(_) => Vec::new(),
    }
}

proof fn lemma_usable_kept(res: Result<Vec<TorrentItem>, ProviderError>, floor: MediaQuality, wanted: Option<Seq<IMDBEpisode>>)
    ensures
        forall|k: int| 0 <= k < usable(res, floor, wanted).len() ==> kept(#[trigger] usable(res, floor, wanted)[k], floor, wanted),
{
    match res {
        Ok(v) => {
            assert forall|k: int| 0 <= k < usable(res, floor, wanted).len() implies kept(#[trigger] usable(res, floor, wanted)[k], floor, wanted) by {
                v@.lemma_filter_pred(kept_by(floor, wanted), k);
            }
        },
        Err(_) => {},
    }
}

/// The search engine's settings.
pub struct Torrenter {
    pub min_quality: MediaQuality,
    pub trackers: Vec<String>,
}

impl Torrenter {
    pub fn new(min_quality: MediaQuality, trackers: Vec<String>) -> (r: Torrenter)
        ensures
            r.min_quality == min_quality,
            r.trackers == trackers,
    {
        Torrenter { min_quality, trackers }
    }

    /// Merges, filters, ranks and dedups the answers of the index providers,
    /// which `results` holds in the fixed provider order (movie index, series
    /// index, general index). `tv_episodes` is `None` for a film.
    pub fn find_torrent(
        &self,
        results: &Vec<Result<Vec<TorrentItem>, ProviderError>>,
        tv_episodes: Option<&Vec<IMDBEpisode>>,
        concurrent_search: bool,
    ) -> (r: Result<Vec<TorrentItem>, SearchError>)
        ensures
            match search_outcome(results@, self.min_quality, wanted_view(tv_episodes), concurrent_search) {
                Ok(s) => r.is_ok() && r.unwrap()@ == s,
                Err(e) => r == Err::<Vec<TorrentItem>, SearchError>(e),
            },
            r.is_ok() ==> is_ranked(r.unwrap()@, tv_episodes.is_some()) && no_adjacent_repeats(
                r.unwrap()@,
                tv_episodes.is_some(),
            ),
            r.is_ok() ==> forall|k: int|
                0 <= k < r.unwrap()@.len() ==> kept(
                    #[trigger] r.unwrap()@[k],
                    self.min_quality,
                    wanted_view(tv_episodes),
                ),
    {
        let floor = self.min_quality;
        let ghost w = wanted_view(tv_episodes);
        let mut pool: Vec<TorrentItem> = Vec::new();
        let mut i: usize = 0;
        while i < results.len()
            invariant
                i <= results.len(),
                w == wanted_view(tv_episodes),
                concurrent_search ==> pool@ == merged(results@.take(i as int), floor, w),
                !concurrent_search ==> pool@ == first_usable(results@.take(i as int), floor, w),
                forall|k: int| 0 <= k < pool@.len() ==> kept(#[trigger] pool@[k], floor, w),
            decreases results.len() - i,
        {
            assert(results@.take(i + 1).drop_last() =~= results@.take(i as int));
            if concurrent_search {
                let mut part = usable_candidates(&results[i], floor, tv_episodes);
                proof {
                    lemma_usable_kept(results@[i as int], floor, w);
                }
                let ghost before = pool@;
                pool.append(&mut part);
                proof {
                    assert forall|k: int| 0 <= k < pool@.len() implies kept(#[trigger] pool@[k], floor, w) by {
                        if k < before.len() {
                            assert(pool@[k] == before[k]);
                        } else {
                            assert(pool@[k] == usable(results@[i as int], floor, w)[k - before.len()]);
                        }
                    }
                }
            } else if pool.len() == 0 {
                pool = usable_candidates(&results[i], floor, tv_episodes);
                proof {
                    lemma_usable_kept(results@[i as int], floor, w);
                }
            }
            i += 1;
        }
        assert(results@.take(results.len() as int) =~= results@);
        if pool.len() == 0 {
            return Err(SearchError::NoCandidates);
        }
        let shows = tv_episodes.is_some();
        let ranked = rank_candidates(&pool, shows);
        proof {
            lemma_dedup_keeps_ranking(ranked@, shows);
            lemma_dedup_from(ranked@, shows);
            ranked@.to_multiset_ensures();
            pool@.to_multiset_ensures();
            assert forall|k: int| 0 <= k < ranked@.len() implies kept(#[trigger] ranked@[k], floor, w) by {
                let x = ranked@[k];
                assert(ranked@.contains(x));
                assert(ranked@.to_multiset().count(x) > 0);
                assert(pool@.to_multiset().count(x) > 0);
                assert(pool@.contains(x));
                let j = choose|j: int| 0 <= j < pool@.len() && pool@[j] == x;
                assert(kept(pool@[j], floor, w));
            }
        }
        let out = dedup_candidates(&ranked, shows);
        proof {
            assert forall|k: int| 0 <= k < out@.len() implies kept(#[trigger] out@[k], floor, w) by {
                assert(stands_in(out@[k], ranked@));
            }
        }
        Ok(out)
    }
}

/// The provider answer offers `c`.
pub open spec fn offers(res: Result<Vec<TorrentItem>, ProviderError>, c: TorrentItem) -> bool {
    match res {
        Ok(l) => l@.contains(c),
        Err(_) => false,
    }
}

proof fn lemma_offer_usable(res: Result<Vec<TorrentItem>, ProviderError>, c: TorrentItem, floor: MediaQuality, wanted: Option<Seq<IMDBEpisode>>)
    requires
        offers(res, c),
        kept(c, floor, wanted),
    ensures
        usable(res, floor, wanted).contains(c),
{
    match res {
        Ok(l) => {
            let j = choose|j: int| 0 <= j < l@.len() && l@[j] == c;
            l@.lemma_filter_contains(kept_by(floor, wanted), j);
        },
        Err(_) => {},
    }
}

proof fn lemma_merged_contains(rs: Seq<Result<Vec<TorrentItem>, ProviderError>>, i: int, c: TorrentItem, floor: MediaQuality, wanted: Option<Seq<IMDBEpisode>>)
    requires
        0 <= i < rs.len(),
        usable(rs[i], floor, wanted).contains(c),
    ensures
        merged(rs, floor, wanted).contains(c),
    decreases rs.len(),
{
    let d = rs.drop_last();
    let a = merged(d, floor, wanted);
    let b = usable(rs.last(), floor, wanted);
    if i == rs.len() - 1 {
        let j = choose|j: int| 0 <= j < b.len() && b[j] == c;
        assert((a + b)[a.len() + j] == c);
    } else {
        assert(d[i] == rs[i]);
        lemma_merged_contains(d, i, c, floor, wanted);
        let j = choose|j: int| 0 <= j < a.len() && a[j] == c;
        assert((a + b)[j] == c);
    }
}

proof fn lemma_first_usable_nonempty(rs: Seq<Result<Vec<TorrentItem>, ProviderError>>, i: int, floor: MediaQuality, wanted: Option<Seq<IMDBEpisode>>)
    requires
        0 <= i < rs.len(),
        usable(rs[i], floor, wanted).len() > 0,
    ensures
        first_usable(rs, floor, wanted).len() > 0,
    decreases rs.len(),
{
    if i < rs.len() - 1 {
        assert(rs.drop_last()[i] == rs[i]);
        lemma_first_usable_nonempty(rs.drop_last(), i, floor, wanted);
    }
}

proof fn lemma_slot_equiv(a: TorrentItem, b: TorrentItem, c: TorrentItem, shows: bool)
    ensures
        same_slot(a, a, shows),
        same_slot(a, b, shows) ==> same_slot(b, a, shows),
        same_slot(a, b, shows) && same_slot(b, c, shows) ==> same_slot(a, c, shows),
        ranks_before(a, a, shows),
{
}

proof fn lemma_slot_sandwich(a: TorrentItem, b: TorrentItem, c: TorrentItem, shows: bool)
    requires
        ranks_before(a, b, shows),
        ranks_before(b, c, shows),
        same_slot(a, c, shows),
    ensures
        same_slot(b, c, shows),
{
    MediaQuality::lemma_tier_order();
    assert(b.quality.spec_ordinal() == c.quality.spec_ordinal());
    if shows {
        assert(slot_key(b.season) == slot_key(c.season));
        assert(slot_key(b.episode) == slot_key(c.episode));
    }
}

proof fn lemma_dedup_covers(s: Seq<TorrentItem>, shows: bool)
    ensures
        forall|j: int| 0 <= j < s.len() ==> exists|k: int| 0 <= k < dedup_seq(s, shows).len() && same_slot(
            dedup_seq(s, shows)[k],
            #[trigger] s[j],
            shows,
        ),
    decreases s.len(),
{
    let r = dedup_seq(s, shows);
    if s.len() <= 1 {
        assert forall|j: int| 0 <= j < s.len() implies exists|k: int| 0 <= k < r.len() && same_slot(r[k], #[trigger] s[j], shows) by {
            lemma_slot_equiv(s[j], s[j], s[j], shows);
            assert(r[j] == s[j]);
        }
    } else {
        let d = s.drop_last();
        lemma_dedup_covers(d, shows);
        let p = dedup_seq(d, shows);
        let n = s.len();
        assert forall|j: int| 0 <= j < s.len() implies exists|k: int| 0 <= k < r.len() && same_slot(r[k], #[trigger] s[j], shows) by {
            if j < n - 1 {
                assert(d[j] == s[j]);
                let k = choose|k: int| 0 <= k < p.len() && same_slot(p[k], #[trigger] d[j], shows);
                assert(r[k] == p[k]);
            } else if same_slot(s[n - 2], s[n - 1], shows) {
                assert(d[n - 2] == s[n - 2]);
                let k = choose|k: int| 0 <= k < p.len() && same_slot(p[k], #[trigger] d[n - 2], shows);
                lemma_slot_equiv(p[k], s[n - 2], s[n - 1], shows);
                assert(r[k] == p[k]);
            } else {
                lemma_slot_equiv(s[j], s[j], s[j], shows);
                assert(r[p.len() as int] == s[j]);
            }
        }
    }
}

proof fn lemma_dedup_survivor(s: Seq<TorrentItem>, shows: bool)
    requires
        is_ranked(s, shows),
    ensures
        forall|k: int, j: int|
            0 <= k < dedup_seq(s, shows).len() && 0 <= j < s.len() && same_slot(s[j], #[trigger] dedup_seq(s, shows)[k], shows)
                ==> ranks_before(dedup_seq(s, shows)[k], #[trigger] s[j], shows),
    decreases s.len(),
{
    let r = dedup_seq(s, shows);
    if s.len() <= 1 {
        assert forall|k: int, j: int| 0 <= k < r.len() && 0 <= j < s.len() && same_slot(s[j], #[trigger] r[k], shows) implies ranks_before(r[k], #[trigger] s[j], shows) by {
            lemma_slot_equiv(s[j], s[j], s[j], shows);
            assert(r[k] == s[k]);
        }
    } else {
        let d = s.drop_last();
        let n = s.len();
        assert(is_ranked(d, shows)) by {
            assert forall|i: int, j: int| 0 <= i < j < d.len() implies ranks_before(d[i], d[j], shows) by {
                assert(d[i] == s[i] && d[j] == s[j]);
            }
        }
        lemma_dedup_survivor(d, shows);
        lemma_dedup_from(d, shows);
        let p = dedup_seq(d, shows);
        assert forall|k: int, j: int| 0 <= k < r.len() && 0 <= j < s.len() && same_slot(s[j], #[trigger] r[k], shows) implies ranks_before(r[k], #[trigger] s[j], shows) by {
            if k < p.len() {
                assert(r[k] == p[k]);
                if j < n - 1 {
                    assert(d[j] == s[j]);
                } else {
                    assert(stands_in(p[k], d));
                    let t = choose|t: int| 0 <= t < d.len() && d[t] == p[k];
                    assert(s[t] == d[t]);
                }
            } else {
                assert(r[k] == s[n - 1]);
                assert(!same_slot(s[n - 2], s[n - 1], shows));
                if j < n - 1 {
                    if j < n - 2 {
                        lemma_slot_sandwich(s[j], s[n - 2], s[n - 1], shows);
                    }
                    lemma_slot_equiv(s[j], s[n - 1], s[n - 1], shows);
                    assert(false);
                } else {
                    lemma_slot_equiv(s[j], s[j], s[j], shows);
                }
            }
        }
    }
}

/// The pool of candidates a search draws from.
pub open spec fn search_pool(
    rs: Seq<Result<Vec<TorrentItem>, ProviderError>>,
    floor: MediaQuality,
    wanted: Option<Seq<IMDBEpisode>>,
    concurrent: bool,
) -> Seq<TorrentItem> {
    if concurrent { merged(rs, floor, wanted) } else { first_usable(rs, floor, wanted) }
}

/// Nothing that the search keeps is lost: when any provider offers a
/// candidate at or above the floor (and, when episodes are wanted, one of
/// them), a concurrent search succeeds and its result holds a candidate of
/// the same tier (and, for series, the same season and episode), whatever
/// the other providers did.
pub proof fn lemma_concurrent_keeps_every_slot(
    rs: Seq<Result<Vec<TorrentItem>, ProviderError>>,
    i: int,
    c: TorrentItem,
    floor: MediaQuality,
    wanted: Option<Seq<IMDBEpisode>>,
)
    requires
        0 <= i < rs.len(),
        offers(rs[i], c),
        kept(c, floor, wanted),
    ensures
        search_outcome(rs, floor, wanted, true).is_ok(),
        exists|k: int|
            0 <= k < search_outcome(rs, floor, wanted, true).unwrap().len() && #[trigger] same_slot(
                search_outcome(rs, floor, wanted, true).unwrap()[k],
                c,
                wanted.is_some(),
            ),
{
    let shows = wanted.is_some();
    lemma_offer_usable(rs[i], c, floor, wanted);
    lemma_merged_contains(rs, i, c, floor, wanted);
    let pool = merged(rs, floor, wanted);
    let ranked = rank_seq(pool, shows);
    lemma_rank_seq(pool, shows);
    pool.to_multiset_ensures();
    ranked.to_multiset_ensures();
    assert(pool.contains(c));
    assert(pool.len() > 0);
    assert(pool.to_multiset().count(c) > 0);
    assert(ranked.to_multiset().count(c) > 0);
    assert(ranked.contains(c));
    let j = choose|j: int| 0 <= j < ranked.len() && ranked[j] == c;
    lemma_dedup_covers(ranked, shows);
    let v = dedup_seq(ranked, shows);
    let k = choose|k: int| 0 <= k < v.len() && same_slot(v[k], #[trigger] ranked[j], shows);
    assert(same_slot(v[k], c, shows));
    assert(search_outcome(rs, floor, wanted, true) == Ok::<Seq<TorrentItem>, SearchError>(v));
    assert(search_outcome(rs, floor, wanted, true).unwrap() == v);
    assert(same_slot(search_outcome(rs, floor, wanted, true).unwrap()[k], c, shows));
}

/// A provider's failure never aborts a search: when any provider offers a
/// candidate that the search keeps, the search succeeds in either mode.
pub proof fn lemma_search_survives_failures(
    rs: Seq<Result<Vec<TorrentItem>, ProviderError>>,
    i: int,
    c: TorrentItem,
    floor: MediaQuality,
    wanted: Option<Seq<IMDBEpisode>>,
    concurrent: bool,
)
    requires
        0 <= i < rs.len(),
        offers(rs[i], c),
        kept(c, floor, wanted),
    ensures
        search_outcome(rs, floor, wanted, concurrent).is_ok(),
{
    lemma_offer_usable(rs[i], c, floor, wanted);
    if concurrent {
        lemma_merged_contains(rs, i, c, floor, wanted);
    } else {
        lemma_first_usable_nonempty(rs, i, floor, wanted);
    }
}

/// Which copy survives the removal of repeats: every candidate of a search
/// result ranks at or before every candidate of the search's pool that
/// offers the same thing, so it has the most seeds among them (a known count
/// beating an unknown one). The order of the providers decides only between
/// copies equal on every ranking key, since ranking is a stable sort.
pub proof fn lemma_survivor_ranks_first(
    rs: Seq<Result<Vec<TorrentItem>, ProviderError>>,
    floor: MediaQuality,
    wanted: Option<Seq<IMDBEpisode>>,
    concurrent: bool,
)
    ensures
        match search_outcome(rs, floor, wanted, concurrent) {
            Ok(v) => forall|k: int, x: TorrentItem|
                0 <= k < v.len() && search_pool(rs, floor, wanted, concurrent).contains(x) && #[trigger] same_slot(
                    x,
                    v[k],
                    wanted.is_some(),
                ) ==> ranks_before(v[k], x, wanted.is_some()),
            Err(_) => true,
        },
{
    let shows = wanted.is_some();
    let pool = search_pool(rs, floor, wanted, concurrent);
    let ranked = rank_seq(pool, shows);
    lemma_rank_seq(pool, shows);
    lemma_dedup_survivor(ranked, shows);
    pool.to_multiset_ensures();
    ranked.to_multiset_ensures();
    let v = dedup_seq(ranked, shows);
    if pool.len() > 0 {
        assert forall|k: int, x: TorrentItem| 0 <= k < v.len() && pool.contains(x) && #[trigger] same_slot(x, v[k], shows) implies ranks_before(v[k], x, shows) by {
            assert(pool.to_multiset().count(x) > 0);
            assert(ranked.contains(x));
            let j = choose|j: int| 0 <= j < ranked.len() && ranked[j] == x;
            assert(same_slot(ranked[j], v[k], shows));
        }
    }
}

} // verus!
