//! What the list pages show: which episodes of a subtitle group pass its
//! keyword filter, which slice of the search results a page holds, which
//! control an episode row offers for the state of its download, how many
//! bangumi the subscriptions cover, and which downloads are under way.

use vstd::prelude::*;

use crate::download::{
    find_chars, find_id, first_occurrence, has_text, index_of_id, lemma_index_of_id, magnet_info_hash, occurs_at,
    spec_info_hash_of_lower, to_lowercase, unicode_lowercase, TaskRecord, TaskState,
    TaskStateView,
};
use crate::model::{Episode, Subscription};
use crate::text::{chars_of, trim, trim_str};

verus! {

// ───────────────────────── keyword filter ─────────────────────────

/// A lower-cased title passes the filter whose lower-cased keyword is `key`:
/// an empty keyword lets everything through, else the title must contain it.
pub open spec fn spec_title_passes(title_lower: Seq<char>, key: Seq<char>) -> bool {
    key.len() == 0 || exists|i: int| occurs_at(title_lower, key, i)
}

/// Whether a lower-cased title passes the filter of a lower-cased keyword.
pub fn title_passes(title_lower: &str, key: &str) -> (res: bool)
    ensures
        res == spec_title_passes(title_lower@, key@),
{
    let k = chars_of(key);
    if k.len() == 0 {
        return true;
    }
    let t = chars_of(title_lower);
    let found = find_chars(&t, &k);
    proof {
        reveal(first_occurrence);
    }
    found.is_some()
}

/// The filter key of a stored keyword: trimmed, then lower-cased.
pub fn filter_key(keyword: &str) -> (res: String)
    ensures
        res@ == unicode_lowercase(trim(keyword@)),
        trim(keyword@).len() == 0 ==> res@.len() == 0,
{
    let t = trim_str(keyword);
    to_lowercase(t.as_str())
}

/// The titles of a list of episodes.
pub open spec fn titles_of(episodes: Seq<Episode>) -> Seq<Seq<char>> {
    episodes.map_values(|e: Episode| e.title@)
}

/// The positions, in order, of the titles that pass the filter of `key`
/// (each title lower-cased first).
pub open spec fn kept_positions(titles: Seq<Seq<char>>, key: Seq<char>) -> Seq<int>
    decreases titles.len(),
{
    if titles.len() == 0 {
        Seq::empty()
    } else {
        let before = kept_positions(titles.drop_last(), key);
        if spec_title_passes(unicode_lowercase(titles.last()), key) {
            before.push(titles.len() - 1)
        } else {
            before
        }
    }
}

/// The keyword filter shows exactly the episodes whose lower-cased title
/// contains the key anywhere (every episode for an empty key), each once and
/// in list order.
pub proof fn law_filter_shows_exactly_the_matching_titles(titles: Seq<Seq<char>>, key: Seq<char>)
    ensures
        forall|j: int|
            #![trigger kept_positions(titles, key).contains(j)]
            #![trigger titles[j]]
            kept_positions(titles, key).contains(j) <==> (0 <= j < titles.len() && (key.len() == 0
                || has_text(unicode_lowercase(titles[j]), key))),
        forall|a: int, b: int|
            0 <= a < b < kept_positions(titles, key).len() ==> kept_positions(titles, key)[a]
                < kept_positions(titles, key)[b],
    decreases titles.len(),
{
    if titles.len() > 0 {
        let prev = titles.drop_last();
        law_filter_shows_exactly_the_matching_titles(prev, key);
        let kp = kept_positions(prev, key);
        let k = kept_positions(titles, key);
        let last = titles.len() - 1;
        assert forall|j: int| 0 <= j < prev.len() implies prev[j] == titles[j] by {}
        assert forall|x: int| kp.contains(x) implies 0 <= x < prev.len() by {}
        assert forall|j: int|
            #![trigger k.contains(j)]
            #![trigger titles[j]]
            k.contains(j) <==> (0 <= j < titles.len() && (key.len() == 0 || has_text(
                unicode_lowercase(titles[j]),
                key,
            ))) by {
            if 0 <= j < last {
                assert(prev[j] == titles[j]);
            }
            if k.contains(j) && !kp.contains(j) {
                let m = choose|m: int| 0 <= m < k.len() && k[m] == j;
                assert(m == kp.len());
            }
            if kp.contains(j) {
                let m = choose|m: int| 0 <= m < kp.len() && kp[m] == j;
                assert(k[m] == j);
            }
            if j == last && (key.len() == 0 || has_text(unicode_lowercase(titles[j]), key)) {
                assert(k[kp.len() as int] == j);
            }
        }
        assert forall|a: int, b: int| 0 <= a < b < k.len() implies k[a] < k[b] by {
            if b == kp.len() {
                assert(kp.contains(kp[a]));
            }
        }
    }
}

/// The positions of the episodes that the keyword filter of a group page
/// shows, in list order. A blank keyword (empty or only whitespace) filters
/// nothing out.
pub fn visible_episodes(episodes: &Vec<Episode>, keyword: &str) -> (res: Vec<usize>)
    ensures
        res@.map_values(|i: usize| i as int) == kept_positions(
            titles_of(episodes@),
            unicode_lowercase(trim(keyword@)),
        ),
        trim(keyword@).len() == 0 ==> res@.map_values(|i: usize| i as int) == Seq::new(
            episodes@.len(),
            |i: int| i,
        ),
{
    let key = filter_key(keyword);
    let ghost titles = titles_of(episodes@);
    let mut out: Vec<usize> = Vec::new();
    let mut i: usize = 0;
    while i < episodes.len()
        invariant
            i <= episodes.len(),
            titles == titles_of(episodes@),
            key@ == unicode_lowercase(trim(keyword@)),
            out@.map_values(|j: usize| j as int) == kept_positions(titles.take(i as int), key@),
        decreases episodes.len() - i,
    {
        let lower = to_lowercase(episodes[i].title.as_str());
        let keep = title_passes(lower.as_str(), key.as_str());
        proof {
            assert(titles.take(i + 1).drop_last() =~= titles.take(i as int));
            assert(titles.take(i + 1).last() == episodes@[i as int].title@);
        }
        if keep {
            let ghost before = out@;
            out.push(i);
            proof {
                assert(out@.map_values(|j: usize| j as int) =~= before.map_values(
                    |j: usize| j as int,
                ).push(i as int));
            }
        }
        i = i + 1;
    }
    proof {
        assert(titles.take(episodes.len() as int) =~= titles);
        if trim(keyword@).len() == 0 {
            assert(key@ =~= Seq::<char>::empty());
            lemma_blank_key_keeps_all(titles);
        }
    }
    out
}

proof fn lemma_blank_key_keeps_all(titles: Seq<Seq<char>>)
    ensures
        kept_positions(titles, Seq::empty()) == Seq::new(titles.len(), |i: int| i),
    decreases titles.len(),
{
    if titles.len() > 0 {
        lemma_blank_key_keeps_all(titles.drop_last());
        assert(kept_positions(titles, Seq::empty()) =~= Seq::new(titles.len(), |i: int| i));
    } else {
        assert(kept_positions(titles, Seq::empty()) =~= Seq::new(titles.len(), |i: int| i));
    }
}


// ───────────────────────── search paging ─────────────────────────

/// Episode rows per page of the search results.
pub const SEARCH_PAGE_SIZE: usize = 50;

/// One page of the search results: the page shown (clamped), how many pages
/// there are, the slice `start..end` of the episode rows, and whether the
/// "previous" and "next" buttons are enabled.
#[derive(Debug, Clone, Copy, PartialEq, Eq, Structural)]
pub struct SearchPaging {
    pub page: usize,
    pub total_pages: usize,
    pub start: usize,
    pub end: usize,
    pub prev_enabled: bool,
    pub next_enabled: bool,
}

/// `ceil(total / SEARCH_PAGE_SIZE)`, and at least one page.
pub open spec fn spec_total_pages(total: int) -> int {
    let c = (total + SEARCH_PAGE_SIZE - 1) / (SEARCH_PAGE_SIZE as int);
    if c < 1 {
        1
    } else {
        c
    }
}

/// The paging of `total` episode rows when page `page` is asked for: a page
/// past the end (after the results were refreshed) shows the last one.
pub open spec fn spec_search_paging(total: usize, page: usize) -> SearchPaging {
    let pages = spec_total_pages(total as int);
    let p: int = if page < pages { page as int } else { pages - 1 };
    let start = p * SEARCH_PAGE_SIZE;
    let end = if start + SEARCH_PAGE_SIZE < total { start + SEARCH_PAGE_SIZE } else { total as int };
    SearchPaging {
        page: p as usize,
        total_pages: pages as usize,
        start: start as usize,
        end: end as usize,
        prev_enabled: p > 0,
        next_enabled: p + 1 < pages,
    }
}

/// The slice of the search results that page `page` shows.
pub fn search_paging(total: usize, page: usize) -> (res: SearchPaging)
    ensures
        res == spec_search_paging(total, page),
{
    let full: usize = total / SEARCH_PAGE_SIZE;
    let rest: usize = total % SEARCH_PAGE_SIZE;
    let c: usize = if rest == 0 { full } else { full + 1 };
    assert(c as int == (total + SEARCH_PAGE_SIZE - 1) / (SEARCH_PAGE_SIZE as int));
    let pages: usize = if c < 1 { 1 } else { c };
    let p: usize = if page < pages { page } else { pages - 1 };
    assert(p * SEARCH_PAGE_SIZE <= total);
    let start: usize = p * SEARCH_PAGE_SIZE;
    let end: usize = if total - start > SEARCH_PAGE_SIZE { start + SEARCH_PAGE_SIZE } else { total };
    SearchPaging {
        page: p,
        total_pages: pages,
        start,
        end,
        prev_enabled: p > 0,
        next_enabled: p + 1 < pages,
    }
}

/// A page of search results is a slice of the rows, never longer than a
/// page and never empty while there are rows; "previous" is enabled exactly
/// when rows come before it and "next" exactly when rows come after it; a
/// page that exists is shown as asked.
pub proof fn law_search_page_is_a_slice(total: usize, page: usize)
    ensures
        ({
            let r = spec_search_paging(total, page);
            &&& r.start <= r.end <= total
            &&& r.end - r.start <= SEARCH_PAGE_SIZE
            &&& total > 0 ==> r.start < r.end
            &&& r.prev_enabled <==> r.start > 0
            &&& r.next_enabled <==> r.end < total
            &&& page < r.total_pages ==> r.page == page
        }),
{
    let pages = spec_total_pages(total as int);
    let p: int = if page < pages { page as int } else { pages - 1 };
    assert(p * SEARCH_PAGE_SIZE <= total);
    assert(total > 0 ==> p * SEARCH_PAGE_SIZE < total);
    assert(p + 1 < pages <==> p * SEARCH_PAGE_SIZE + SEARCH_PAGE_SIZE < total);
}

// ───────────────────────── row control ─────────────────────────

/// The control an episode row offers.
#[derive(Debug, Clone, Copy, PartialEq, Eq, Structural)]
pub enum RowControl {
    /// No magnet link: nothing to offer.
    Nothing,
    /// Not downloaded, or the finished file was deleted: "download".
    Download,
    /// Finished: "open", and a menu with "delete".
    OpenAndMore,
    /// Failed: the error text and "cancel".
    ErrorAndCancel,
    /// Fetching metadata or downloading: progress, rates and "cancel".
    ProgressAndCancel,
}

/// The control for a row with or without a magnet link whose download is in
/// the given state (`None`: no task).
pub open spec fn spec_control_for(has_magnet: bool, state: Option<TaskStateView>) -> RowControl {
    if !has_magnet {
        RowControl::Nothing
    } else {
        match state {
            Some(TaskStateView::Completed) => RowControl::OpenAndMore,
            Some(TaskStateView::Error(_)) => RowControl::ErrorAndCancel,
            Some(TaskStateView::Initializing) => RowControl::ProgressAndCancel,
            Some(TaskStateView::Downloading) => RowControl::ProgressAndCancel,
            Some(TaskStateView::Missing) => RowControl::Download,
            None => RowControl::Download,
        }
    }
}

/// The state of an optional task, by its view.
pub open spec fn state_view_of(state: Option<&TaskState>) -> Option<TaskStateView> {
    match state {
        Some(s) => Some(s.deep_view()),
        None => None,
    }
}

/// The control for a row, given whether it has a magnet link and the state of
/// its task.
pub fn control_for(has_magnet: bool, state: Option<&TaskState>) -> (res: RowControl)
    ensures
        res == spec_control_for(has_magnet, state_view_of(state)),
{
    if !has_magnet {
        return RowControl::Nothing;
    }
    match state {
        Some(TaskState::Completed) => RowControl::OpenAndMore,
        Some(TaskState::Error(_)) => RowControl::ErrorAndCancel,
        Some(TaskState::Initializing) => RowControl::ProgressAndCancel,
        Some(TaskState::Downloading) => RowControl::ProgressAndCancel,
        Some(TaskState::Missing) => RowControl::Download,
        None => RowControl::Download,
    }
}

/// The task of a magnet link in a snapshot: the first one whose id is the
/// link's info-hash.
pub open spec fn task_of_magnet(magnet: Seq<char>, snapshot: Seq<TaskRecord>) -> Option<int> {
    match spec_info_hash_of_lower(unicode_lowercase(magnet)) {
        Some(h) => index_of_id(snapshot, h),
        None => None,
    }
}

/// The control of the row of an episode with this magnet link (empty when it
/// has none), and the position of its task in the snapshot.
pub fn row_control(magnet: &str, snapshot: &Vec<TaskRecord>) -> (res: (RowControl, Option<usize>))
    ensures
        res.1 matches Some(i) ==> task_of_magnet(magnet@, snapshot@) == Some(i as int),
        res.1 is None ==> task_of_magnet(magnet@, snapshot@) is None,
        res.0 == spec_control_for(
            magnet@.len() > 0,
            match task_of_magnet(magnet@, snapshot@) {
                Some(i) => Some(snapshot@[i].state.deep_view()),
                None => None,
            },
        ),
{
    let has_magnet = chars_of(magnet).len() > 0;
    let task = match magnet_info_hash(magnet) {
        Some(h) => find_id(snapshot, &h),
        None => None,
    };
    proof {
        if let Some(h) = spec_info_hash_of_lower(unicode_lowercase(magnet@)) {
            lemma_index_of_id(snapshot@, h);
        }
    }
    match task {
        Some(i) => (control_for(has_magnet, Some(&snapshot[i].state)), Some(i)),
        None => (control_for(has_magnet, None), None),
    }
}


// ───────────────────────── subscriptions and active downloads ─────────────────────────

/// The bangumi ids of a list of subscriptions.
pub open spec fn bangumi_ids(subs: Seq<Subscription>) -> Seq<u32> {
    subs.map_values(|s: Subscription| s.bangumi_id)
}

/// How many distinct bangumi the subscriptions cover (a bangumi with two
/// subscribed groups counts once).
pub fn subscribed_bangumi_count(subs: &Vec<Subscription>) -> (res: usize)
    ensures
        res == bangumi_ids(subs@).to_set().len(),
{
    let ghost ids = bangumi_ids(subs@);
    let mut seen: Vec<u32> = Vec::new();
    let mut i: usize = 0;
    while i < subs.len()
        invariant
            i <= subs.len(),
            ids == bangumi_ids(subs@),
            seen@.no_duplicates(),
            seen@.to_set() == ids.take(i as int).to_set(),
            seen.len() <= i,
        decreases subs.len() - i,
    {
        let id = subs[i].bangumi_id;
        let mut found = false;
        let mut k: usize = 0;
        while k < seen.len()
            invariant
                k <= seen.len(),
                found <==> exists|j: int| 0 <= j < k && seen@[j] == id,
            decreases seen.len() - k,
        {
            if seen[k] == id {
                found = true;
            }
            k = k + 1;
        }
        let ghost before = seen@;
        proof {
            assert(ids.take(i + 1) =~= ids.take(i as int).push(id));
            ids.take(i as int).lemma_push_to_set_commute(id);
        }
        if !found {
            seen.push(id);
            proof {
                assert(seen@ =~= before.push(id));
                before.lemma_push_to_set_commute(id);
            }
        } else {
            proof {
                assert(before.to_set().contains(id));
                assert(before.to_set().insert(id) =~= before.to_set());
            }
        }
        i = i + 1;
    }
    proof {
        assert(ids.take(subs.len() as int) =~= ids);
        seen@.unique_seq_to_set();
    }
    seen.len()
}

/// A task that is still under way: fetching metadata or downloading.
pub open spec fn is_active(t: TaskRecord) -> bool {
    t.state.deep_view() is Initializing || t.state.deep_view() is Downloading
}

/// The positions, in order, of the tasks that are under way.
pub open spec fn active_positions(tasks: Seq<TaskRecord>) -> Seq<int>
    decreases tasks.len(),
{
    if tasks.len() == 0 {
        Seq::empty()
    } else {
        let before = active_positions(tasks.drop_last());
        if is_active(tasks.last()) {
            before.push(tasks.len() - 1)
        } else {
            before
        }
    }
}

/// The tasks that the download observer lists: those under way, in snapshot
/// order.
pub fn active_tasks(snapshot: &Vec<TaskRecord>) -> (res: Vec<usize>)
    ensures
        res@.map_values(|i: usize| i as int) == active_positions(snapshot@),
{
    let mut out: Vec<usize> = Vec::new();
    let mut i: usize = 0;
    while i < snapshot.len()
        invariant
            i <= snapshot.len(),
            out@.map_values(|j: usize| j as int) == active_positions(snapshot@.take(i as int)),
        decreases snapshot.len() - i,
    {
        let keep = match snapshot[i].state {
            TaskState::Initializing => true,
            TaskState::Downloading => true,
            _ => false,
        };
        proof {
            assert(snapshot@.take(i + 1).drop_last() =~= snapshot@.take(i as int));
            assert(snapshot@.take(i + 1).last() == snapshot@[i as int]);
        }
        if keep {
            let ghost before = out@;
            out.push(i);
            proof {
                assert(out@.map_values(|j: usize| j as int) =~= before.map_values(
                    |j: usize| j as int,
                ).push(i as int));
            }
        }
        i = i + 1;
    }
    proof {
        assert(snapshot@.take(snapshot.len() as int) =~= snapshot@);
    }
    out
}

} // verus!
