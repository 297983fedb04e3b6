use vstd::prelude::*;

use crate::candidate::TorrentItem;
use crate::episode::{contains_pair, holds_pair, IMDBEpisode, ItemType, SEASON_PACK};
use crate::magnet::{build_magnet, magnet_of, url_encoded};
use crate::number::{i32_of, parse_i32, parse_u32, u32_of};
use crate::quality::MediaQuality;
use crate::search::{episode_matches, episode_wanted};
use crate::text::{
    contains, contains_text, find_ending, find_text, first_ending, first_from, first_occurrence,
    lower_of, lowercase, pieces, same_text, split_spaces, texts, trim, trimmed,
};

verus! {

/// The tier that a release title names by its first word ending in `0p`;
/// `Unknown` when there is none or it is no known resolution.
pub open spec fn title_quality(title: Seq<char>) -> MediaQuality {
    match first_ending(pieces(title), "0p"@) {
        Some(w) => MediaQuality::spec_from_resolution(w),
        None => MediaQuality::Unknown,
    }
}

/// Reads the tier that a release title names.
pub fn quality_from_title(title: &str) -> (r: MediaQuality)
    ensures
        r == title_quality(title@),
{
    let words = split_spaces(title);
    match find_ending(&words, "0p") {
        Some(i) => MediaQuality::from_resolution(words[i].as_str()),
        None => MediaQuality::Unknown,
    }
}

/// One result of the series index, as its API lists it.
#[derive(Debug)]
pub struct EztvRecord {
    pub filename: String,
    pub magnet_url: String,
    pub title: String,
    pub season: String,
    pub episode: String,
    pub seeds: i64,
}

/// The series index numbers a whole-season pack as episode 0: its title says
/// "complete", or names neither an episode nor an `e0`-style number.
pub open spec fn eztv_is_pack(title: Seq<char>, episode: i32) -> bool {
    pack_title(lower_of(title), episode)
}

/// The same rule over a title already lowercased.
pub open spec fn pack_title(l: Seq<char>, episode: i32) -> bool {
    episode == 0 && (contains_text(l, "complete"@) || (!contains_text(l, "e0"@) && !contains_text(l, "episode"@)))
}

/// Whether a series-index record with the lowercased title `lower_title` and
/// episode number `episode` is a whole-season pack.
pub fn is_pack_title(lower_title: &str, episode: i32) -> (r: bool)
    ensures
        r == pack_title(lower_title@, episode),
{
    episode == 0 && (contains(lower_title, "complete") || (!contains(lower_title, "e0") && !contains(
        lower_title,
        "episode",
    )))
}

/// The display name of a series result: its title up to where the tier's
/// label first stands in it, then a space and the label.
pub open spec fn eztv_name(title: Seq<char>, q: MediaQuality) -> Seq<char> {
    let cut = match first_occurrence(title, q.spec_label()) {
        Some(i) => i,
        None => title.len() as int,
    };
    title.subrange(0, cut) + " "@ + q.spec_label()
}

/// What a series-index record yields, if it is kept: its season, its
/// episode (`SEASON_PACK` for a pack) and its tier. A record is kept when it
/// has seeds, its season and episode read as numbers, it is wanted (a single
/// episode when that episode is wanted, a pack when any episode of its season
/// is), it is not a multi-language release, and its title names a known tier.
pub open spec fn eztv_fields(rec: EztvRecord, wanted: Seq<IMDBEpisode>) -> Option<(i32, i32, MediaQuality)> {
    if rec.seeds <= 0 {
        None
    } else {
        match (i32_of(rec.season@), i32_of(rec.episode@)) {
            (Some(s), Some(e)) => {
                let q = title_quality(rec.title@);
                let ep = if eztv_is_pack(rec.title@, e) { SEASON_PACK } else { e };
                if !episode_wanted(Some(s), Some(ep), wanted) || contains_text(rec.filename@, ".multi"@)
                    || q == MediaQuality::Unknown {
                    None
                } else {
                    Some((s, ep, q))
                }
            },
            _ => None,
        }
    }
}

/// A seed count cut to what a `u32` holds.
pub open spec fn seeds_u32(n: i64) -> u32 {
    if n > u32::MAX as i64 {
        u32::MAX
    } else if n < 0 {
        0
    } else {
        n as u32
    }
}

/// The candidate that a series-index record yields for the item `imdb_id`
/// when `wanted` are the wanted episodes, if it is kept.
pub fn eztv_item(rec: &EztvRecord, imdb_id: &String, wanted: &Vec<IMDBEpisode>) -> (r: Option<TorrentItem>)
    ensures
        r.is_some() == eztv_fields(*rec, wanted@).is_some(),
        r.is_some() ==> ({
            let (s, e, q) = eztv_fields(*rec, wanted@).unwrap();
            let c = r.unwrap();
            &&& c.imdb_id@ == imdb_id@
            &&& c.name@ == eztv_name(rec.title@, q)
            &&& c.magnet_uri@ == rec.magnet_url@
            &&& c.quality == q
            &&& c._type == ItemType::TvShow
            &&& c.season == Some(s)
            &&& c.episode == Some(e)
            &&& c.seeds == Some(seeds_u32(rec.seeds))
            &&& c.source@ == "EZTV"@
        }),
{
    if rec.seeds <= 0 {
        return None;
    }
    let season = match parse_i32(rec.season.as_str()) {
        Some(s) => s,
        None => return None,
    };
    let episode = match parse_i32(rec.episode.as_str()) {
        Some(e) => e,
        None => return None,
    };
    let lower = lowercase(rec.title.as_str());
    let ep = if is_pack_title(lower.as_str(), episode) { SEASON_PACK } else { episode };
    if !episode_matches(Some(season), Some(ep), wanted) || contains(rec.filename.as_str(), ".multi") {
        return None;
    }
    let q = quality_from_title(rec.title.as_str());
    if q == MediaQuality::Unknown {
        return None;
    }
    let label = q.label();
    let cut = match find_text(rec.title.as_str(), label) {
        Some(i) => i,
        None => rec.title.unicode_len(),
    };
    let name = rec.title.as_str().substring_char(0, cut).to_owned().concat(" ").concat(label);
    let seeds: u32 = if rec.seeds > u32::MAX as i64 {
        u32::MAX
    } else {
        rec.seeds as u32
    };
    Some(
        TorrentItem::new(
            imdb_id.clone(),
            name,
            rec.magnet_url.clone(),
            q,
            ItemType::TvShow,
            Some(season),
            Some(ep),
            Some(seeds),
            String::from_str("EZTV"),
        ),
    )
}

/// The candidate for one download of a film-index movie: the movie's id and
/// title, a magnet link built from the download's info hash, the title and
/// the announce trackers, and the tier that its quality label names.
pub fn yts_item(imdb_code: &String, title: &String, hash: &String, quality: &String, trackers: &Vec<String>) -> (r: TorrentItem)
    ensures
        r.imdb_id@ == imdb_code@,
        r.name@ == title@,
        r.magnet_uri@ == magnet_of(hash@, url_encoded(title@), trackers@.map_values(|t: String| t@)),
        r.quality == MediaQuality::spec_from_movie_label(lower_of(quality@)),
        r._type == ItemType::Movie,
        r.season.is_none(),
        r.episode.is_none(),
        r.seeds.is_none(),
        r.source@ == "YTS"@,
{
    let magnet = build_magnet(hash.as_str(), title.as_str(), trackers);
    TorrentItem::new(
        imdb_code.clone(),
        title.clone(),
        magnet,
        MediaQuality::from_movie_label(quality.as_str()),
        ItemType::Movie,
        None,
        None,
        None,
        String::from_str("YTS"),
    )
}

/// One row of the general index's result table, as its page shows it.
#[derive(Debug)]
pub struct RarbgRow {
    /// The text of the row's link to its detail page.
    pub name: String,
    /// Where that link goes.
    pub href: String,
    /// The text of the row's category link.
    pub category: String,
    /// The text of the row's seed count.
    pub seeds: String,
}

/// A row of the general index that is worth opening.
#[derive(Debug)]
pub struct RarbgHit {
    pub url: String,
    pub quality: MediaQuality,
    pub _type: ItemType,
    pub season: Option<i32>,
    pub episode: Option<i32>,
    pub seeds: u32,
}

/// The kind of item that a category of the general index holds.
pub open spec fn rarbg_type(c: Seq<char>) -> Option<ItemType> {
    if c == "TV"@ || c == "Anime"@ {
        Some(ItemType::TvShow)
    } else if c == "Movies"@ {
        Some(ItemType::Movie)
    } else {
        None
    }
}

/// The kind of item that a (trimmed) category name of the general index holds.
pub fn category_type(c: &str) -> (r: Option<ItemType>)
    ensures
        r == rarbg_type(c@),
{
    if same_text(c, "TV") || same_text(c, "Anime") {
        Some(ItemType::TvShow)
    } else if same_text(c, "Movies") {
        Some(ItemType::Movie)
    } else {
        None
    }
}

/// A lowercased title word that marks a camera or telesync recording.
pub open spec fn excluded_word(w: Seq<char>) -> bool {
    w == "hdcam"@ || w == "hdts"@ || w == "ts"@ || w == "cam"@ || w == "camrip"@ || w == "telesync"@ || w == "tsx"@
}

/// The title is of a camera or telesync recording.
pub open spec fn rarbg_excluded(name: Seq<char>) -> bool {
    (exists|i: int| 0 <= i < pieces(name).len() && excluded_word(lower_of(#[trigger] pieces(name)[i])))
        || contains_text(lower_of(name), "hd ts"@)
}

pub open spec fn is_season_word(w: Seq<char>) -> bool {
    w == "Season"@ || w == "season"@
}

/// A title word that tells the episode: an `S..E..` code, or the word
/// "Season" in a title that does not speak of an episode.
pub open spec fn episode_marker(w: Seq<char>, lower_name: Seq<char>) -> bool {
    (w.len() > 0 && w[0] == 'S' && contains_text(w, "E"@)) || (is_season_word(w) && !contains_text(
        lower_name,
        "episode"@,
    ))
}

/// The first word of `ws` that tells the episode.
pub open spec fn first_marker(ws: Seq<Seq<char>>, lower_name: Seq<char>) -> Option<Seq<char>>
    decreases ws.len(),
{
    if ws.len() == 0 {
        None
    } else if episode_marker(ws[0], lower_name) {
        Some(ws[0])
    } else {
        first_marker(ws.drop_first(), lower_name)
    }
}

/// The season of a season pack: the number after the last "Season" word that
/// is followed by one.
pub open spec fn pack_season(ws: Seq<Seq<char>>) -> Option<i32>
    decreases ws.len(),
{
    if ws.len() < 2 {
        None
    } else if is_season_word(ws[ws.len() - 2]) && i32_of(ws.last()).is_some() {
        i32_of(ws.last())
    } else {
        pack_season(ws.drop_last())
    }
}

/// The season and episode of an `S..E..` code: the numbers before and after
/// its first `E`, the leading `S` dropped.
pub open spec fn episode_code(w: Seq<char>) -> Option<(i32, i32)> {
    match first_from(w, 'E', 0) {
        Some(k) => if k < 1 {
            None
        } else {
            match (i32_of(w.subrange(1, k)), i32_of(w.subrange(k + 1, w.len() as int))) {
                (Some(s), Some(e)) => Some((s, e)),
                _ => None,
            }
        },
        None => None,
    }
}

/// The season and episode that a title tells, when episodes are wanted:
/// a season pack of the season it names, or the episode of its `S..E..` code
/// when that episode is wanted.
pub open spec fn rarbg_episode(name: Seq<char>, wanted: Seq<IMDBEpisode>) -> Option<(i32, i32)> {
    let ws = pieces(name);
    match first_marker(ws, lower_of(name)) {
        None => None,
        Some(m) => if is_season_word(m) {
            match pack_season(ws) {
                Some(s) => Some((s, SEASON_PACK)),
                None => None,
            }
        } else {
            match episode_code(m) {
                Some((s, e)) => if holds_pair(wanted, s, e) {
                    Some((s, e))
                } else {
                    None
                },
                None => None,
            }
        },
    }
}

/// What a row yields, if it is worth opening: its kind, seed count, tier, and
/// season and episode. A row is kept when its category is known, it has
/// seeds, it is no camera or telesync recording, its title names a known
/// tier, and, when episodes are wanted, its title tells one of them.
pub open spec fn rarbg_fields(row: RarbgRow, wanted: Option<Seq<IMDBEpisode>>) -> Option<(ItemType, u32, MediaQuality, Option<i32>, Option<i32>)> {
    match (rarbg_type(trimmed(row.category@)), u32_of(trimmed(row.seeds@))) {
        (Some(ty), Some(n)) => {
            let q = title_quality(row.name@);
            if n == 0 || rarbg_excluded(row.name@) || q == MediaQuality::Unknown {
                None
            } else {
                match wanted {
                    None => Some((ty, n, q, None, None)),
                    Some(w) => match rarbg_episode(row.name@, w) {
                        Some((s, e)) => Some((ty, n, q, Some(s), Some(e))),
                        None => None,
                    },
                }
            }
        },
        _ => None,
    }
}

/// Whether a lowercased title word marks a camera or telesync recording.
pub fn is_excluded_word(w: &str) -> (r: bool)
    ensures
        r == excluded_word(w@),
{
    same_text(w, "hdcam") || same_text(w, "hdts") || same_text(w, "ts") || same_text(w, "cam") || same_text(
        w,
        "camrip",
    ) || same_text(w, "telesync") || same_text(w, "tsx")
}

/// Whether a title word is "Season" or "season".
pub fn is_season(w: &str) -> (r: bool)
    ensures
        r == is_season_word(w@),
{
    same_text(w, "Season") || same_text(w, "season")
}

/// Whether a title word tells the episode, given the lowercased title.
pub fn is_episode_marker(w: &str, lower_name: &str) -> (r: bool)
    ensures
        r == episode_marker(w@, lower_name@),
{
    (w.unicode_len() > 0 && w.get_char(0) == 'S' && contains(w, "E")) || (is_season(w) && !contains(
        lower_name,
        "episode",
    ))
}

/// Whether some title word, lowercased, marks a camera or telesync recording.
pub fn has_excluded_word(words: &Vec<String>) -> (r: bool)
    ensures
        r == exists|i: int| 0 <= i < words@.len() && excluded_word(lower_of(#[trigger] words@[i]@)),
{
    let mut i: usize = 0;
    while i < words.len()
        invariant
            forall|k: int| 0 <= k < i ==> !excluded_word(lower_of(#[trigger] words@[k]@)),
        decreases words.len() - i,
    {
        let l = lowercase(words[i].as_str());
        if is_excluded_word(l.as_str()) {
            return true;
        }
        i += 1;
    }
    false
}

/// The index of the first title word that tells the episode.
pub fn find_marker(words: &Vec<String>, lower_name: &str) -> (r: Option<usize>)
    ensures
        r.is_none() == first_marker(texts(words@), lower_name@).is_none(),
        r.is_some() ==> r.unwrap() < words@.len() && first_marker(texts(words@), lower_name@) == Some(
            words@[r.unwrap() as int]@,
        ),
{
    let ghost ws = texts(words@);
    let mut i: usize = 0;
    assert(ws.skip(0) =~= ws);
    while i < words.len()
        invariant
            i <= words.len(),
            ws == texts(words@),
            first_marker(ws, lower_name@) == first_marker(ws.skip(i as int), lower_name@),
        decreases words.len() - i,
    {
        assert(ws.skip(i as int)[0] == words@[i as int]@);
        assert(ws.skip(i as int).drop_first() =~= ws.skip(i + 1));
        if is_episode_marker(words[i].as_str(), lower_name) {
            return Some(i);
        }
        i += 1;
    }
    assert(ws.skip(i as int) =~= Seq::<Seq<char>>::empty());
    None
}

/// The season that a season-pack title names.
pub fn find_pack_season(words: &Vec<String>) -> (r: Option<i32>)
    ensures
        r == pack_season(texts(words@)),
{
    let ghost ws = texts(words@);
    let mut found: Option<i32> = None;
    let mut k: usize = 1;
    proof {
        assert(pack_season(ws.take(0)) == None::<i32>);
    }
    if words.len() < 2 {
        return None;
    }
    while k < words.len()
        invariant
            1 <= k <= words.len(),
            ws == texts(words@),
            found == pack_season(ws.take(k as int)),
        decreases words.len() - k,
    {
        let ghost t = ws.take(k + 1);
        assert(t.drop_last() =~= ws.take(k as int));
        assert(t[t.len() - 2] == words@[k - 1]@);
        assert(t.last() == words@[k as int]@);
        if is_season(words[k - 1].as_str()) {
            match parse_i32(words[k].as_str()) {
                Some(s) => {
                    found = Some(s);
                },
                None => {},
            }
        }
        k += 1;
    }
    assert(ws.take(words.len() as int) =~= ws);
    found
}

/// The season and episode of an `S..E..` code.
pub fn read_episode_code(w: &str) -> (r: Option<(i32, i32)>)
    ensures
        r == episode_code(w@),
{
    let n = w.unicode_len();
    let mut k: usize = 0;
    while k < n
        invariant
            k <= n,
            n == w@.len(),
            forall|j: int| 0 <= j < k ==> w@[j] != 'E',
        decreases n - k,
    {
        if w.get_char(k) == 'E' {
            proof {
                let f = first_from(w@, 'E', 0);
                assert(w@[k as int] == 'E');
                assert(f.unwrap() == k);
            }
            if k < 1 {
                return None;
            }
            let s = parse_i32(w.substring_char(1, k));
            let e = parse_i32(w.substring_char(k + 1, n));
            return match (s, e) {
                (Some(s), Some(e)) => Some((s, e)),
                _ => None,
            };
        }
        k += 1;
    }
    None
}

/// What a row of the general index's result table yields, if it is worth
/// opening. `wanted` is `None` for a film.
pub fn rarbg_hit(row: &RarbgRow, wanted: Option<&Vec<IMDBEpisode>>) -> (r: Option<RarbgHit>)
    ensures
        ({
            let f = rarbg_fields(
                *row,
                match wanted {
                    Some(v) => Some(v@),
                    None => None,
                },
            );
            &&& r.is_some() == f.is_some()
            &&& r.is_some() ==> ({
                let (ty, n, q, s, e) = f.unwrap();
                let h = r.unwrap();
                &&& h.url@ == row.href@
                &&& h._type == ty
                &&& h.seeds == n
                &&& h.quality == q
                &&& h.season == s
                &&& h.episode == e
            })
        }),
{
    let ty = match category_type(trim(row.category.as_str())) {
        Some(t) => t,
        None => return None,
    };
    let seeds = match parse_u32(trim(row.seeds.as_str())) {
        Some(n) => n,
        None => return None,
    };
    let words = split_spaces(row.name.as_str());
    let lower_name = lowercase(row.name.as_str());
    let q = quality_from_title(row.name.as_str());
    proof {
        let ps = pieces(row.name@);
        assert(ps == texts(words@));
        assert(ps.len() == words@.len());
        if exists|i: int| 0 <= i < words@.len() && excluded_word(lower_of(#[trigger] words@[i]@)) {
            let i = choose|i: int| 0 <= i < words@.len() && excluded_word(lower_of(#[trigger] words@[i]@));
            assert(ps[i] == words@[i]@);
        }
        if exists|i: int| 0 <= i < ps.len() && excluded_word(lower_of(#[trigger] ps[i])) {
            let i = choose|i: int| 0 <= i < ps.len() && excluded_word(lower_of(#[trigger] ps[i]));
            assert(ps[i] == words@[i]@);
        }
    }
    if seeds == 0 || has_excluded_word(&words) || contains(lower_name.as_str(), "hd ts") || q
        == MediaQuality::Unknown {
        return None;
    }
    let (season, episode) = match wanted {
        None => (None, None),
        Some(w) => {
            let m = match find_marker(&words, lower_name.as_str()) {
                Some(m) => m,
                None => return None,
            };
            if is_season(words[m].as_str()) {
                match find_pack_season(&words) {
                    Some(s) => (Some(s), Some(SEASON_PACK)),
                    None => return None,
                }
            } else {
                match read_episode_code(words[m].as_str()) {
                    Some((s, e)) => {
                        if contains_pair(w, s, e) {
                            (Some(s), Some(e))
                        } else {
                            return None;
                        }
                    },
                    None => return None,
                }
            }
        },
    };
    Some(RarbgHit { url: row.href.clone(), quality: q, _type: ty, season, episode, seeds })
}

/// One row of the detail table of a general-index release: the text of its
/// header cell and of its first data cell, either of which may be missing.
#[derive(Debug)]
pub struct DetailRow {
    pub header: Option<String>,
    pub value: Option<String>,
}

/// The first row whose header is `Language:`, if any.
pub open spec fn language_row(rows: Seq<DetailRow>) -> Option<DetailRow>
    decreases rows.len(),
{
    if rows.len() == 0 {
        None
    } else if rows[0].header.is_some() && rows[0].header.unwrap()@ == "Language:"@ {
        Some(rows[0])
    } else {
        language_row(rows.drop_first())
    }
}

/// A release of the general index is taken only when the first `Language:`
/// row of its detail table says English.
pub open spec fn english_release(rows: Seq<DetailRow>) -> bool {
    match language_row(rows) {
        Some(r) => r.value.is_some() && (r.value.unwrap()@ == "English"@ || r.value.unwrap()@ == "english"@),
        None => false,
    }
}

/// Whether a general-index release, by its detail table, is in English.
pub fn is_english_release(rows: &Vec<DetailRow>) -> (r: bool)
    ensures
        r == english_release(rows@),
{
    let mut i: usize = 0;
    assert(rows@.skip(0) =~= rows@);
    while i < rows.len()
        invariant
            i <= rows.len(),
            language_row(rows@) == language_row(rows@.skip(i as int)),
        decreases rows.len() - i,
    {
        assert(rows@.skip(i as int)[0] == rows@[i as int]);
        assert(rows@.skip(i as int).drop_first() =~= rows@.skip(i + 1));
        let is_language = match &rows[i].header {
            Some(h) => same_text(h.as_str(), "Language:"),
            None => false,
        };
        if is_language {
            return match &rows[i].value {
                Some(v) => same_text(v.as_str(), "English") || same_text(v.as_str(), "english"),
                None => false,
            };
        }
        i += 1;
    }
    assert(rows@.skip(i as int) =~= Seq::<DetailRow>::empty());
    false
}

} // verus!
