use vstd::prelude::*;

use crate::client::{StateView, Torrent, TorrentFile, TorrentState};
use crate::text::{ends_with, ends_with_text, holds_text, texts};

verus! {

/// Seconds that a job must stay stalled before it is re-announced, and
/// between two re-announcements of it.
pub const STALL_WINDOW_SECS: i64 = 1800;

/// The texts of a list of strings, as a set.
pub open spec fn text_set(v: Seq<String>) -> Set<Seq<char>> {
    Set::new(|h: Seq<char>| holds_text(v, h))
}

/// No text stands twice in `v`.
pub open spec fn distinct_texts(v: Seq<String>) -> bool {
    forall|i: int, j: int| 0 <= i < j < v.len() ==> v[i]@ != v[j]@
}

/// The monitor's note on one job: the state it was last seen in, and since when.
#[derive(Debug)]
pub struct StallRecord {
    pub hash: String,
    pub state: TorrentState,
    pub since: i64,
}

/// No job has two stall records.
pub open spec fn distinct_records(v: Seq<StallRecord>) -> bool {
    forall|i: int, j: int| 0 <= i < j < v.len() ==> v[i].hash@ != v[j].hash@
}

/// The stall records as a map from job hash to (state, since).
pub open spec fn record_map(v: Seq<StallRecord>) -> Map<Seq<char>, (StateView, int)> {
    Map::new(
        |h: Seq<char>| exists|i: int| 0 <= i < v.len() && v[i].hash@ == h,
        |h: Seq<char>|
            {
                let i = choose|i: int| 0 <= i < v.len() && v[i].hash@ == h;
                (v[i].state@, v[i].since as int)
            },
    )
}

/// What the monitor remembers between ticks.
pub ghost struct MonitorView {
    /// Jobs whose unwanted files were already switched off.
    pub filtered: Set<Seq<char>>,
    /// Jobs that the scheduler started, and so are the monitor's to tend.
    pub auto: Set<Seq<char>>,
    /// For each tended job, the state it was last seen in and since when.
    pub stalls: Map<Seq<char>, (StateView, int)>,
}

/// The stall record of a job after it was seen in state `s` at time `now`,
/// and whether it is due for a re-announce. A job seen for the first time, or
/// in a new state, is noted with `now`. A job still `Stalled` whose note is at
/// least a window old is due, and its note restarts at `now`.
pub open spec fn stall_step(prev: Option<(StateView, int)>, s: StateView, now: int) -> ((StateView, int), bool) {
    match prev {
        None => ((s, now), false),
        Some((p, t)) => if p != s {
            ((s, now), false)
        } else if s == StateView::Stalled && now - t >= STALL_WINDOW_SECS {
            ((p, now), true)
        } else {
            ((p, t), false)
        },
    }
}

/// The lifecycle monitor's working memory.
pub struct MonitorState {
    filtered: Vec<String>,
    auto: Vec<String>,
    stalled: Vec<StallRecord>,
}

impl View for MonitorState {
    type V = MonitorView;

    closed spec fn view(&self) -> MonitorView {
        MonitorView {
            filtered: text_set(self.filtered@),
            auto: text_set(self.auto@),
            stalls: record_map(self.stalled@),
        }
    }
}

fn find_text_in(v: &Vec<String>, h: &String) -> (r: Option<usize>)
    ensures
        r.is_none() ==> !holds_text(v@, h@),
        r.is_some() ==> r.unwrap() < v@.len() && v@[r.unwrap() as int]@ == h@,
{
    let mut i: usize = 0;
    while i < v.len()
        invariant
            forall|k: int| 0 <= k < i ==> v@[k]@ != h@,
        decreases v.len() - i,
    {
        if v[i] == *h {
            return Some(i);
        }
        i += 1;
    }
    None
}

fn add_text(v: &mut Vec<String>, h: &String)
    requires
        distinct_texts(old(v)@),
    ensures
        distinct_texts(final(v)@),
        text_set(final(v)@) == text_set(old(v)@).insert(h@),
{
    match find_text_in(v, h) {
        Some(_) => {
            assert(text_set(v@) =~= text_set(v@).insert(h@));
        },
        None => {
            let ghost before = v@;
            v.push(h.clone());
            assert forall|x: Seq<char>| holds_text(v@, x) == (holds_text(before, x) || x == h@) by {
                if holds_text(before, x) {
                    let i = choose|i: int| 0 <= i < before.len() && before[i]@ == x;
                    assert(v@[i] == before[i]);
                }
                if holds_text(v@, x) {
                    let i = choose|i: int| 0 <= i < v@.len() && v@[i]@ == x;
                    if i < before.len() {
                        assert(v@[i] == before[i]);
                    }
                }
                if x == h@ {
                    assert(v@[before.len() as int]@ == x);
                }
            }
            assert(text_set(v@) =~= text_set(before).insert(h@));
        },
    }
}

fn drop_text(v: &mut Vec<String>, h: &String)
    requires
        distinct_texts(old(v)@),
    ensures
        distinct_texts(final(v)@),
        text_set(final(v)@) == text_set(old(v)@).remove(h@),
{
    match find_text_in(v, h) {
        Some(k) => {
            let ghost before = v@;
            v.remove(k);
            assert forall|x: Seq<char>| holds_text(v@, x) == (holds_text(before, x) && x != h@) by {
                if holds_text(before, x) && x != h@ {
                    let i = choose|i: int| 0 <= i < before.len() && before[i]@ == x;
                    if i < k {
                        assert(v@[i] == before[i]);
                    } else {
                        assert(i != k);
                        assert(v@[i - 1] == before[i]);
                    }
                }
                if holds_text(v@, x) {
                    let i = choose|i: int| 0 <= i < v@.len() && v@[i]@ == x;
                    if i < k {
                        assert(v@[i] == before[i]);
                    } else {
                        assert(v@[i] == before[i + 1]);
                    }
                }
            }
            assert(text_set(v@) =~= text_set(before).remove(h@));
        },
        None => {
            assert(text_set(v@) =~= text_set(v@).remove(h@));
        },
    }
}

fn find_record(v: &Vec<StallRecord>, h: &String) -> (r: Option<usize>)
    ensures
        r.is_none() ==> forall|i: int| 0 <= i < v@.len() ==> v@[i].hash@ != h@,
        r.is_some() ==> r.unwrap() < v@.len() && v@[r.unwrap() as int].hash@ == h@,
{
    let mut i: usize = 0;
    while i < v.len()
        invariant
            forall|k: int| 0 <= k < i ==> v@[k].hash@ != h@,
        decreases v.len() - i,
    {
        if v[i].hash == *h {
            return Some(i);
        }
        i += 1;
    }
    None
}

proof fn lemma_record_at(v: Seq<StallRecord>, k: int)
    requires
        distinct_records(v),
        0 <= k < v.len(),
    ensures
        record_map(v).contains_key(v[k].hash@),
        record_map(v)[v[k].hash@] == (v[k].state@, v[k].since as int),
{
    let h = v[k].hash@;
    assert(record_map(v).contains_key(h));
    let i = choose|i: int| 0 <= i < v.len() && v[i].hash@ == h;
    assert(i == k);
}

impl MonitorState {
    /// The lists hold no repeats.
    pub closed spec fn wf(&self) -> bool {
        &&& distinct_texts(self.filtered@)
        &&& distinct_texts(self.auto@)
        &&& distinct_records(self.stalled@)
    }

    /// A monitor that remembers nothing.
    pub fn new() -> (r: MonitorState)
        ensures
            r.wf(),
            r@.filtered == Set::<Seq<char>>::empty(),
            r@.auto == Set::<Seq<char>>::empty(),
            r@.stalls == Map::<Seq<char>, (StateView, int)>::empty(),
    {
        let r = MonitorState { filtered: Vec::new(), auto: Vec::new(), stalled: Vec::new() };
        assert(r@.filtered =~= Set::<Seq<char>>::empty());
        assert(r@.auto =~= Set::<Seq<char>>::empty());
        assert(r@.stalls =~= Map::<Seq<char>, (StateView, int)>::empty());
        r
    }

    /// Notes a job that the scheduler started, so that the monitor tends it.
    pub fn note_started(&mut self, hash: &String)
        requires
            old(self).wf(),
        ensures
            final(self).wf(),
            final(self)@ == (MonitorView { auto: old(self)@.auto.insert(hash@), ..old(self)@ }),
    {
        add_text(&mut self.auto, hash);
    }

    /// Notes that a job's unwanted files were switched off.
    pub fn mark_filtered(&mut self, hash: &String)
        requires
            old(self).wf(),
        ensures
            final(self).wf(),
            final(self)@ == (MonitorView { filtered: old(self)@.filtered.insert(hash@), ..old(self)@ }),
    {
        add_text(&mut self.filtered, hash);
    }

    /// Forgets all that is known of a job.
    pub fn forget(&mut self, hash: &String)
        requires
            old(self).wf(),
        ensures
            final(self).wf(),
            final(self)@ == (MonitorView {
                filtered: old(self)@.filtered.remove(hash@),
                auto: old(self)@.auto.remove(hash@),
                stalls: old(self)@.stalls.remove(hash@),
            }),
    {
        drop_text(&mut self.filtered, hash);
        drop_text(&mut self.auto, hash);
        match find_record(&self.stalled, hash) {
            Some(k) => {
                let ghost before = self.stalled@;
                self.stalled.remove(k);
                proof {
                    let after = self.stalled@;
                    assert forall|i: int, j: int| 0 <= i < j < after.len() implies after[i].hash@ != after[j].hash@ by {
                        let bi = if i < k { i } else { i + 1 };
                        let bj = if j < k { j } else { j + 1 };
                        assert(after[i] == before[bi] && after[j] == before[bj]);
                    }
                    assert forall|x: Seq<char>| #[trigger] record_map(after).contains_key(x) == (record_map(before).contains_key(x) && x != hash@) by {
                        if record_map(before).contains_key(x) && x != hash@ {
                            let i = choose|i: int| 0 <= i < before.len() && before[i].hash@ == x;
                            if i < k {
                                assert(after[i] == before[i]);
                            } else {
                                assert(i != k);
                                assert(after[i - 1] == before[i]);
                            }
                        }
                        if record_map(after).contains_key(x) {
                            let i = choose|i: int| 0 <= i < after.len() && after[i].hash@ == x;
                            if i < k {
                                assert(after[i] == before[i]);
                            } else {
                                assert(after[i] == before[i + 1]);
                                assert(before[i + 1].hash@ != before[k as int].hash@);
                            }
                        }
                    }
                    assert forall|x: Seq<char>| #[trigger] record_map(after).contains_key(x) implies record_map(after)[x] == record_map(before)[x] by {
                        let i = choose|i: int| 0 <= i < after.len() && after[i].hash@ == x;
                        let bi = if i < k { i } else { i + 1 };
                        assert(after[i] == before[bi]);
                        lemma_record_at(after, i);
                        lemma_record_at(before, bi);
                    }
                    assert(record_map(after) =~= record_map(before).remove(hash@));
                }
            },
            None => {
                assert(record_map(self.stalled@) =~= record_map(self.stalled@).remove(hash@));
            },
        }
    }

    /// Whether the scheduler started the job.
    pub fn is_auto(&self, hash: &String) -> (r: bool)
        ensures
            r == self@.auto.contains(hash@),
    {
        find_text_in(&self.auto, hash).is_some()
    }

    /// Whether the job's unwanted files were already switched off.
    pub fn is_filtered(&self, hash: &String) -> (r: bool)
        ensures
            r == self@.filtered.contains(hash@),
    {
        find_text_in(&self.filtered, hash).is_some()
    }

    /// Since when the job has been seen in its present state, if it is tended.
    pub fn stall_since(&self, hash: &String) -> (r: Option<i64>)
        requires
            self.wf(),
        ensures
            r.is_some() == self@.stalls.contains_key(hash@),
            r.is_some() ==> r.unwrap() as int == self@.stalls[hash@].1,
    {
        match find_record(&self.stalled, hash) {
            Some(k) => {
                proof {
                    lemma_record_at(self.stalled@, k as int);
                }
                Some(self.stalled[k].since)
            },
            None => None,
        }
    }

    /// Notes that a job was seen in `state` at `now` (seconds) and says
    /// whether it is due for a re-announce, by the rule of `stall_step`.
    pub fn observe_stall(&mut self, hash: &String, state: &TorrentState, now: i64) -> (r: bool)
        requires
            old(self).wf(),
        ensures
            final(self).wf(),
            ({
                let (rec, due) = stall_step(
                    if old(self)@.stalls.contains_key(hash@) {
                        Some(old(self)@.stalls[hash@])
                    } else {
                        None
                    },
                    state@,
                    now as int,
                );
                &&& r == due
                &&& final(self)@ == (MonitorView { stalls: old(self)@.stalls.insert(hash@, rec), ..old(self)@ })
            }),
    {
        let ghost before = self.stalled@;
        match find_record(&self.stalled, hash) {
            None => {
                self.stalled.push(StallRecord { hash: hash.clone(), state: state.duplicate(), since: now });
                proof {
                    let after = self.stalled@;
                    assert forall|i: int, j: int| 0 <= i < j < after.len() implies after[i].hash@ != after[j].hash@ by {
                        assert(after[i] == before[i]);
                        if j < before.len() {
                            assert(after[j] == before[j]);
                        }
                    }
                    lemma_record_at(after, before.len() as int);
                    assert forall|x: Seq<char>| x != hash@ implies #[trigger] record_map(after).contains_key(x) == record_map(before).contains_key(x) by {
                        if record_map(before).contains_key(x) {
                            let i = choose|i: int| 0 <= i < before.len() && before[i].hash@ == x;
                            assert(after[i] == before[i]);
                        }
                        if record_map(after).contains_key(x) {
                            let i = choose|i: int| 0 <= i < after.len() && after[i].hash@ == x;
                            assert(after[i] == before[i]);
                        }
                    }
                    assert forall|x: Seq<char>| x != hash@ && #[trigger] record_map(after).contains_key(x) implies record_map(after)[x] == record_map(before)[x] by {
                        let i = choose|i: int| 0 <= i < after.len() && after[i].hash@ == x;
                        assert(after[i] == before[i]);
                        lemma_record_at(after, i);
                        lemma_record_at(before, i);
                    }
                    assert(record_map(after) =~= record_map(before).insert(hash@, (state@, now as int)));
                }
                false
            },
            Some(k) => {
                proof {
                    lemma_record_at(before, k as int);
                }
                let due: bool;
                let rec: StallRecord;
                if self.stalled[k].state != *state {
                    due = false;
                    rec = StallRecord { hash: hash.clone(), state: state.duplicate(), since: now };
                } else if state.is_stalled() && (now as i128) - (self.stalled[k].since as i128) >= STALL_WINDOW_SECS as i128 {
                    due = true;
                    rec = StallRecord { hash: hash.clone(), state: self.stalled[k].state.duplicate(), since: now };
                } else {
                    due = false;
                    rec = StallRecord {
                        hash: hash.clone(),
                        state: self.stalled[k].state.duplicate(),
                        since: self.stalled[k].since,
                    };
                }
                let ghost new_rec = rec;
                self.stalled.set(k, rec);
                proof {
                    let after = self.stalled@;
                    assert(after == before.update(k as int, new_rec));
                    assert forall|i: int, j: int| 0 <= i < j < after.len() implies after[i].hash@ != after[j].hash@ by {
                        assert(after[i].hash@ == before[i].hash@);
                        assert(after[j].hash@ == before[j].hash@);
                    }
                    lemma_record_at(after, k as int);
                    assert forall|x: Seq<char>| x != hash@ implies #[trigger] record_map(after).contains_key(x) == record_map(before).contains_key(x) by {
                        if record_map(before).contains_key(x) {
                            let i = choose|i: int| 0 <= i < before.len() && before[i].hash@ == x;
                            assert(after[i].hash@ == before[i].hash@);
                        }
                        if record_map(after).contains_key(x) {
                            let i = choose|i: int| 0 <= i < after.len() && after[i].hash@ == x;
                            assert(after[i].hash@ == before[i].hash@);
                        }
                    }
                    assert forall|x: Seq<char>| x != hash@ && #[trigger] record_map(after).contains_key(x) implies record_map(after)[x] == record_map(before)[x] by {
                        let i = choose|i: int| 0 <= i < after.len() && after[i].hash@ == x;
                        assert(i != k);
                        assert(after[i] == before[i]);
                        lemma_record_at(after, i);
                        lemma_record_at(before, i);
                    }
                    assert(record_map(after) =~= record_map(before).insert(hash@, (new_rec.state@, new_rec.since as int)));
                }
                due
            },
        }
    }
}

/// The file's name ends with one of the allowed extensions.
pub open spec fn allowed_name(name: Seq<char>, exts: Seq<String>) -> bool {
    exists|i: int| 0 <= i < exts.len() && ends_with_text(name, exts[i]@)
}

/// The ids of the files whose names end with none of the allowed extensions.
pub open spec fn disallowed_ids(files: Seq<TorrentFile>, exts: Seq<String>) -> Seq<i64>
    decreases files.len(),
{
    if files.len() == 0 {
        Seq::empty()
    } else {
        let p = disallowed_ids(files.drop_last(), exts);
        if allowed_name(files.last().file_name@, exts) {
            p
        } else {
            p.push(files.last().id)
        }
    }
}

/// Whether `name` ends with one of `exts`.
pub fn has_allowed_extension(name: &String, exts: &Vec<String>) -> (r: bool)
    ensures
        r == allowed_name(name@, exts@),
{
    let mut i: usize = 0;
    while i < exts.len()
        invariant
            forall|k: int| 0 <= k < i ==> !ends_with_text(name@, exts@[k]@),
        decreases exts.len() - i,
    {
        if ends_with(name.as_str(), exts[i].as_str()) {
            return true;
        }
        i += 1;
    }
    false
}

/// The ids of the files that are not of an allowed type, in listing order.
pub fn disallowed_files(files: &Vec<TorrentFile>, exts: &Vec<String>) -> (r: Vec<i64>)
    ensures
        r@ == disallowed_ids(files@, exts@),
{
    let mut out: Vec<i64> = Vec::new();
    let mut i: usize = 0;
    while i < files.len()
        invariant
            i <= files.len(),
            out@ == disallowed_ids(files@.take(i as int), exts@),
        decreases files.len() - i,
    {
        assert(files@.take(i + 1).drop_last() =~= files@.take(i as int));
        if !has_allowed_extension(&files[i].file_name, exts) {
            out.push(files[i].id);
        }
        i += 1;
    }
    assert(files@.take(files.len() as int) =~= files@);
    out
}

/// The job is one the monitor tends this tick: the scheduler started it, its
/// files were not filtered yet, and it is downloading or stalled.
pub open spec fn tended(m: MonitorView, j: Torrent) -> bool {
    &&& m.auto.contains(j.hash@)
    &&& !m.filtered.contains(j.hash@)
    &&& (j.state@ == StateView::Downloading || j.state@ == StateView::Stalled)
}

/// The hashes of the completed jobs, in listing order.
pub open spec fn completed_of(jobs: Seq<Torrent>) -> Seq<Seq<char>>
    decreases jobs.len(),
{
    if jobs.len() == 0 {
        Seq::empty()
    } else {
        let p = completed_of(jobs.drop_last());
        if jobs.last().state@ == StateView::Completed {
            p.push(jobs.last().hash@)
        } else {
            p
        }
    }
}

/// The memory after forgetting every job of `hashes`.
pub open spec fn forget_all(m: MonitorView, hashes: Seq<Seq<char>>) -> MonitorView
    decreases hashes.len(),
{
    if hashes.len() == 0 {
        m
    } else {
        let p = forget_all(m, hashes.drop_last());
        let h = hashes.last();
        MonitorView { filtered: p.filtered.remove(h), auto: p.auto.remove(h), stalls: p.stalls.remove(h) }
    }
}

/// The monitor's pass over the tended jobs, in listing order: the memory
/// after it, the hashes due for a re-announce, and for each tended job with
/// files of a type not allowed, its hash and those files' ids.
pub open spec fn watch_jobs(m: MonitorView, jobs: Seq<Torrent>, exts: Seq<String>, now: int) -> (MonitorView, Seq<Seq<char>>, Seq<(Seq<char>, Seq<i64>)>)
    decreases jobs.len(),
{
    if jobs.len() == 0 {
        (m, Seq::empty(), Seq::empty())
    } else {
        let (m1, due, filters) = watch_jobs(m, jobs.drop_last(), exts, now);
        let j = jobs.last();
        if tended(m1, j) {
            let h = j.hash@;
            let (rec, is_due) = stall_step(
                if m1.stalls.contains_key(h) { Some(m1.stalls[h]) } else { None },
                j.state@,
                now,
            );
            let m2 = MonitorView { stalls: m1.stalls.insert(h, rec), ..m1 };
            let due2 = if is_due { due.push(h) } else { due };
            let filters2 = match j.files {
                Some(fs) => {
                    let ids = disallowed_ids(fs@, exts);
                    if ids.len() > 0 { filters.push((h, ids)) } else { filters }
                },
                None => filters,
            };
            (m2, due2, filters2)
        } else {
            (m1, due, filters)
        }
    }
}

/// A request to switch off some files of a job.
#[derive(Debug)]
pub struct FileFilter {
    pub hash: String,
    pub file_ids: Vec<i64>,
}

pub open spec fn filters_view(v: Seq<FileFilter>) -> Seq<(Seq<char>, Seq<i64>)> {
    v.map_values(|f: FileFilter| (f.hash@, f.file_ids@))
}

/// A job's state, as the download store should record it.
#[derive(Debug)]
pub struct StateUpdate {
    pub hash: String,
    pub state: String,
}

/// What one tick of the monitor asks of the download store and the backend,
/// to be carried out in this order: store, completed removals, file filters,
/// re-announce.
#[derive(Debug)]
pub struct TickPlan {
    /// The backend has no jobs: delete every download record, and do nothing else.
    pub clear_store: bool,
    /// Delete the finished records and those of jobs not in this list.
    pub active: Vec<String>,
    /// Record each job's state, in listing order.
    pub updates: Vec<StateUpdate>,
    /// Remove these completed jobs from the backend.
    pub completed: Vec<String>,
    /// Switch off these files; mark the job filtered when that succeeds.
    pub file_filters: Vec<FileFilter>,
    /// Re-announce these jobs, in one call.
    pub reannounce: Vec<String>,
}

impl MonitorState {
    /// One polling tick over the jobs that the backend listed, at time `now`
    /// (seconds), with the allowed file extensions `exts`.
    pub fn tick(&mut self, jobs: &Vec<Torrent>, exts: &Vec<String>, now: i64) -> (plan: TickPlan)
        requires
            old(self).wf(),
        ensures
            final(self).wf(),
            plan.clear_store == (jobs@.len() == 0),
            jobs@.len() == 0 ==> final(self)@ == old(self)@ && plan.active@.len() == 0 && plan.updates@.len() == 0
                && plan.completed@.len() == 0 && plan.file_filters@.len() == 0 && plan.reannounce@.len() == 0,
            jobs@.len() > 0 ==> ({
                let m1 = forget_all(old(self)@, completed_of(jobs@));
                let (m2, due, filters) = watch_jobs(m1, jobs@, exts@, now as int);
                &&& texts(plan.active@) == jobs@.map_values(|j: Torrent| j.hash@)
                &&& plan.updates@.len() == jobs@.len()
                &&& forall|i: int| 0 <= i < jobs@.len() ==> (#[trigger] plan.updates@[i]).hash@ == jobs@[i].hash@
                    && plan.updates@[i].state@ == jobs@[i].state.spec_label()
                &&& texts(plan.completed@) == completed_of(jobs@)
                &&& final(self)@ == m2
                &&& texts(plan.reannounce@) == due
                &&& filters_view(plan.file_filters@) == filters
            }),
    {
        let mut plan = TickPlan {
            clear_store: jobs.len() == 0,
            active: Vec::new(),
            updates: Vec::new(),
            completed: Vec::new(),
            file_filters: Vec::new(),
            reannounce: Vec::new(),
        };
        if jobs.len() == 0 {
            return plan;
        }
        let ghost start = self@;
        let mut i: usize = 0;
        while i < jobs.len()
            invariant
                i <= jobs.len(),
                self.wf(),
                texts(plan.active@) == jobs@.take(i as int).map_values(|j: Torrent| j.hash@),
                plan.active@.len() == i,
                plan.updates@.len() == i,
                forall|k: int| 0 <= k < i ==> (#[trigger] plan.updates@[k]).hash@ == jobs@[k].hash@
                    && plan.updates@[k].state@ == jobs@[k].state.spec_label(),
                texts(plan.completed@) == completed_of(jobs@.take(i as int)),
                self@ == forget_all(start, completed_of(jobs@.take(i as int))),
                plan.file_filters@.len() == 0,
                plan.reannounce@.len() == 0,
                !plan.clear_store,
            decreases jobs.len() - i,
        {
            let j = &jobs[i];
            assert(jobs@.take(i + 1).drop_last() =~= jobs@.take(i as int));
            let ghost old_active = plan.active@;
            let ghost old_completed = plan.completed@;
            plan.active.push(j.hash.clone());
            plan.updates.push(StateUpdate { hash: j.hash.clone(), state: j.state.label() });
            if j.state.is_completed() {
                plan.completed.push(j.hash.clone());
                self.forget(&j.hash);
                proof {
                    assert(completed_of(jobs@.take(i + 1)).drop_last() =~= completed_of(jobs@.take(i as int)));
                }
            }
            proof {
                let a = plan.active@;
                let t = jobs@.take(i + 1);
                assert forall|k: int| 0 <= k < a.len() implies #[trigger] texts(a)[k] == t.map_values(|j: Torrent| j.hash@)[k] by {
                    if k < i {
                        assert(a[k] == old_active[k]);
                        assert(texts(old_active)[k] == jobs@.take(i as int).map_values(|j: Torrent| j.hash@)[k]);
                    }
                }
                assert(texts(a) =~= t.map_values(|j: Torrent| j.hash@));
                let c = plan.completed@;
                assert forall|k: int| 0 <= k < old_completed.len() implies #[trigger] texts(c)[k] == texts(old_completed)[k] by {
                    assert(c[k] == old_completed[k]);
                }
                assert(texts(c) =~= completed_of(jobs@.take(i + 1)));
            }
            i += 1;
        }
        assert(jobs@.take(jobs.len() as int) =~= jobs@);
        let ghost m1 = self@;
        let mut i: usize = 0;
        while i < jobs.len()
            invariant
                i <= jobs.len(),
                self.wf(),
                m1 == forget_all(start, completed_of(jobs@)),
                ({
                    let (m2, due, filters) = watch_jobs(m1, jobs@.take(i as int), exts@, now as int);
                    &&& self@ == m2
                    &&& texts(plan.reannounce@) == due
                    &&& filters_view(plan.file_filters@) == filters
                }),
                texts(plan.active@) == jobs@.map_values(|j: Torrent| j.hash@),
                plan.updates@.len() == jobs@.len(),
                forall|k: int| 0 <= k < jobs@.len() ==> (#[trigger] plan.updates@[k]).hash@ == jobs@[k].hash@
                    && plan.updates@[k].state@ == jobs@[k].state.spec_label(),
                texts(plan.completed@) == completed_of(jobs@),
                !plan.clear_store,
            decreases jobs.len() - i,
        {
            let j = &jobs[i];
            assert(jobs@.take(i + 1).drop_last() =~= jobs@.take(i as int));
            if self.is_auto(&j.hash) && !self.is_filtered(&j.hash) && j.state.is_transferring() {
                let due = self.observe_stall(&j.hash, &j.state, now);
                if due {
                    plan.reannounce.push(j.hash.clone());
                }
                match &j.files {
                    Some(fs) => {
                        let ids = disallowed_files(fs, exts);
                        if ids.len() > 0 {
                            plan.file_filters.push(FileFilter { hash: j.hash.clone(), file_ids: ids });
                        }
                    },
                    None => {},
                }
            }
            proof {
                let (m2, due, filters) = watch_jobs(m1, jobs@.take(i + 1), exts@, now as int);
                assert(texts(plan.reannounce@) =~= due);
                assert(filters_view(plan.file_filters@) =~= filters);
            }
            i += 1;
        }
        plan
    }
}

/// Stall hysteresis: a job noted as `Stalled` at `t0` and still stalled at
/// `now` is due for a re-announce exactly when a whole window has passed;
/// when it is, its note restarts at `now`, so the next re-announce is due
/// exactly when another whole window has passed after `now`.
pub proof fn lemma_stall_hysteresis(t0: int, now: int, later: int)
    ensures
        stall_step(Some((StateView::Stalled, t0)), StateView::Stalled, now).1 == (now - t0 >= STALL_WINDOW_SECS),
        stall_step(Some((StateView::Stalled, t0)), StateView::Stalled, now).1 ==> ({
            let rec = stall_step(Some((StateView::Stalled, t0)), StateView::Stalled, now).0;
            &&& rec == (StateView::Stalled, now)
            &&& stall_step(Some(rec), StateView::Stalled, later).1 == (later - now >= STALL_WINDOW_SECS)
        }),
        !stall_step(Some((StateView::Stalled, t0)), StateView::Stalled, now).1 ==> stall_step(
            Some((StateView::Stalled, t0)),
            StateView::Stalled,
            now,
        ).0 == (StateView::Stalled, t0),
{
}

/// A job seen in a new state is never due, and its note restarts at `now`.
pub proof fn lemma_stall_resets_on_change(prev: StateView, t0: int, s: StateView, now: int)
    requires
        prev != s,
    ensures
        stall_step(Some((prev, t0)), s, now) == ((s, now), false),
{
}

} // verus!
