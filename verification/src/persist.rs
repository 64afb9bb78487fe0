//! Persistent browsing state: bookmarks, the visit history and the saved tab session, kept in
//! memory while the browser runs. Reading and writing the JSON files is done by the caller; this
//! module decides what a read outcome means and how the in-memory state changes.
//!
//! Principles kept from the file format's design: a missing or invalid file means "empty", never a
//! crash; the history is capped (oldest entries leave first); reloading the same URL does not add a
//! second entry.

use vstd::prelude::*;

use crate::clock::now_unix;

verus! {

/// Maximum number of history entries kept (FIFO: the oldest leave first).
pub const HISTORY_CAP: usize = 1000;

/// A bookmark: the label shown and the target URL.
#[derive(Debug, Clone, PartialEq, Eq)]
pub struct Bookmark {
    pub title: String,
    pub url: String,
}

/// One visit recorded in the history.
#[derive(Debug, Clone, PartialEq, Eq)]
pub struct HistoryEntry {
    pub url: String,
    pub title: String,
    /// Time of the visit, in seconds since the Unix epoch.
    pub visited_at: u64,
}

/// The saved tab session: the URLs of the open tabs and the index of the active one.
#[derive(Debug, Clone, PartialEq, Eq)]
pub struct Session {
    pub tabs: Vec<String>,
    pub active: usize,
}

/// The persistent state alive in memory: bookmarks and history. The tab session is not kept here;
/// it is derived from the live tabs when it is saved.
#[derive(Debug)]
pub struct AppData {
    pub bookmarks: Vec<Bookmark>,
    pub history: Vec<HistoryEntry>,
}

/// What reading one of the JSON files gave.
#[derive(Debug)]
pub enum ReadOutcome<T> {
    /// The platform exposes no configuration directory.
    NoConfigDir,
    /// The file does not exist.
    Missing,
    /// The file exists but could not be read.
    Unreadable,
    /// The file was read but does not hold valid JSON of the expected shape.
    Invalid,
    /// The file held this value.
    Parsed(T),
}

pub struct BookmarkView {
    pub title: Seq<char>,
    pub url: Seq<char>,
}

pub struct HistoryEntryView {
    pub url: Seq<char>,
    pub title: Seq<char>,
    pub visited_at: u64,
}

pub struct SessionView {
    pub tabs: Seq<Seq<char>>,
    pub active: usize,
}

impl View for Bookmark {
    type V = BookmarkView;

    open spec fn view(&self) -> BookmarkView {
        BookmarkView { title: self.title@, url: self.url@ }
    }
}

impl View for HistoryEntry {
    type V = HistoryEntryView;

    open spec fn view(&self) -> HistoryEntryView {
        HistoryEntryView { url: self.url@, title: self.title@, visited_at: self.visited_at }
    }
}

impl View for Session {
    type V = SessionView;

    open spec fn view(&self) -> SessionView {
        SessionView { tabs: strings_view(self.tabs@), active: self.active }
    }
}

pub open spec fn strings_view(s: Seq<String>) -> Seq<Seq<char>> {
    s.map_values(|x: String| x@)
}

pub open spec fn bookmarks_view(s: Seq<Bookmark>) -> Seq<BookmarkView> {
    s.map_values(|b: Bookmark| b@)
}

pub open spec fn history_view(s: Seq<HistoryEntry>) -> Seq<HistoryEntryView> {
    s.map_values(|e: HistoryEntry| e@)
}

/// The history after a visit of `url` (titled `title`) at time `now`: an empty URL changes
/// nothing; the same URL as the newest entry only refreshes that entry's title and time; otherwise
/// the visit is appended and, past [`HISTORY_CAP`], the oldest entries are dropped.
pub open spec fn history_after_visit(
    h: Seq<HistoryEntryView>,
    url: Seq<char>,
    title: Seq<char>,
    now: u64,
) -> Seq<HistoryEntryView> {
    let entry = HistoryEntryView { url, title, visited_at: now };
    if url.len() == 0 {
        h
    } else if h.len() > 0 && h.last().url == url {
        h.update(h.len() - 1, entry)
    } else {
        let pushed = h.push(entry);
        if pushed.len() > HISTORY_CAP {
            pushed.skip(pushed.len() - HISTORY_CAP)
        } else {
            pushed
        }
    }
}

/// Whether no two neighbouring history entries have the same URL.
pub open spec fn no_consecutive_repeats(h: Seq<HistoryEntryView>) -> bool {
    forall|i: int| 0 <= i < h.len() - 1 ==> #[trigger] h[i].url != h[i + 1].url
}

/// A visit never lets the history grow past the cap.
pub proof fn visit_respects_cap(h: Seq<HistoryEntryView>, url: Seq<char>, title: Seq<char>, now: u64)
    requires
        h.len() <= HISTORY_CAP,
    ensures
        history_after_visit(h, url, title, now).len() <= HISTORY_CAP,
{
}

/// After a visit of a non-empty URL, the newest entry is that visit (URL, title and time).
pub proof fn visit_is_newest(h: Seq<HistoryEntryView>, url: Seq<char>, title: Seq<char>, now: u64)
    requires
        url.len() > 0,
    ensures
        history_after_visit(h, url, title, now).len() > 0,
        history_after_visit(h, url, title, now).last() == (HistoryEntryView { url, title, visited_at: now }),
{
}

/// Reloading the page of the newest entry does not add an entry: the history keeps its length.
pub proof fn revisit_does_not_grow(h: Seq<HistoryEntryView>, title: Seq<char>, now: u64)
    requires
        h.len() > 0,
        h.last().url.len() > 0,
    ensures
        history_after_visit(h, h.last().url, title, now).len() == h.len(),
{
}

/// At the cap, a visit of a new URL drops exactly the oldest entry (first in, first out).
pub proof fn full_history_drops_oldest(h: Seq<HistoryEntryView>, url: Seq<char>, title: Seq<char>, now: u64)
    requires
        h.len() == HISTORY_CAP,
        url.len() > 0,
        h.last().url != url,
    ensures
        history_after_visit(h, url, title, now) == h.skip(1).push(HistoryEntryView { url, title, visited_at: now }),
{
    assert(history_after_visit(h, url, title, now) =~= h.skip(1).push(HistoryEntryView { url, title, visited_at: now }));
}

/// A history without neighbouring repeats of a URL keeps that property after any visit.
pub proof fn visit_keeps_no_consecutive_repeats(h: Seq<HistoryEntryView>, url: Seq<char>, title: Seq<char>, now: u64)
    requires
        no_consecutive_repeats(h),
    ensures
        no_consecutive_repeats(history_after_visit(h, url, title, now)),
{
    let e = HistoryEntryView { url, title, visited_at: now };
    let after = history_after_visit(h, url, title, now);
    if url.len() == 0 {
    } else if h.len() > 0 && h.last().url == url {
        assert forall|i: int| 0 <= i < after.len() - 1 implies #[trigger] after[i].url != after[i + 1].url by {
            if i + 1 == h.len() - 1 {
                assert(after[i + 1].url == h[i + 1].url);
            } else {
                assert(after[i + 1] == h[i + 1]);
            }
            assert(after[i] == h[i]);
        }
    } else {
        let pushed = h.push(e);
        assert(no_consecutive_repeats(pushed)) by {
            assert forall|i: int| 0 <= i < pushed.len() - 1 implies #[trigger] pushed[i].url != pushed[i + 1].url by {
                if i + 1 < h.len() {
                    assert(pushed[i] == h[i]);
                    assert(pushed[i + 1] == h[i + 1]);
                }
            }
        }
        if pushed.len() > HISTORY_CAP {
            let k = pushed.len() - HISTORY_CAP;
            assert forall|i: int| 0 <= i < after.len() - 1 implies #[trigger] after[i].url != after[i + 1].url by {
                assert(after[i] == pushed[i + k]);
                assert(after[i + 1] == pushed[i + 1 + k]);
            }
        }
    }
}

/// Records a visit at the given time. Returns `true` when something changed (the caller then
/// persists the history). Ignores empty URLs; consecutive visits of the same URL refresh the
/// newest entry; the cap drops the oldest entries.
pub fn record_visit_at(history: &mut Vec<HistoryEntry>, url: &str, title: &str, now: u64) -> (changed: bool)
    ensures
        changed == (url@.len() > 0),
        history_view(final(history)@) == history_after_visit(history_view(old(history)@), url@, title@, now),
{
    if url.is_empty() {
        return false;
    }
    let n = history.len();
    let url_owned = url.to_owned();
    if n > 0 && history[n - 1].url == url_owned {
        let ghost before = history_view(history@);
        let mut last = history.pop().unwrap();
        last.title = title.to_owned();
        last.visited_at = now;
        history.push(last);
        assert(history_view(history@) =~= before.update(n - 1, HistoryEntryView { url: url@, title: title@, visited_at: now }));
        return true;
    }
    let ghost before = history_view(history@);
    history.push(HistoryEntry { url: url_owned, title: title.to_owned(), visited_at: now });
    assert(history_view(history@) =~= before.push(HistoryEntryView { url: url@, title: title@, visited_at: now }));
    if history.len() > HISTORY_CAP {
        let excess = history.len() - HISTORY_CAP;
        let ghost pushed = history_view(history@);
        let kept = history.split_off(excess);
        *history = kept;
        assert(history_view(history@) =~= pushed.skip(excess as int));
    }
    true
}

/// Records a visit now (see [`record_visit_at`]); the time is read from the clock, so the new
/// entry's time is some clock reading.
pub fn record_visit(history: &mut Vec<HistoryEntry>, url: &str, title: &str) -> (changed: bool)
    ensures
        changed == (url@.len() > 0),
        exists|now: u64|
            history_view(final(history)@) == #[trigger] history_after_visit(history_view(old(history)@), url@, title@, now),
{
    let now = now_unix();
    record_visit_at(history, url, title, now)
}

/// The bookmarks a read outcome gives: the parsed list, or empty on any failure.
pub fn load_bookmarks(outcome: ReadOutcome<Vec<Bookmark>>) -> (res: Vec<Bookmark>)
    ensures
        match outcome {
            ReadOutcome::Parsed(v) => res@ == v@,
            _ => res@.len() == 0,
        },
{
    match outcome {
        ReadOutcome::Parsed(v) => v,
        _ => Vec::new(),
    }
}

/// The history a read outcome gives: the parsed list, or empty on any failure.
pub fn load_history(outcome: ReadOutcome<Vec<HistoryEntry>>) -> (res: Vec<HistoryEntry>)
    ensures
        match outcome {
            ReadOutcome::Parsed(v) => res@ == v@,
            _ => res@.len() == 0,
        },
{
    match outcome {
        ReadOutcome::Parsed(v) => v,
        _ => Vec::new(),
    }
}

/// The saved session a read outcome gives: `None` when there is no session file (or no
/// configuration directory); an empty session when the file exists but cannot be read or parsed.
pub fn load_session(outcome: ReadOutcome<Session>) -> (res: Option<Session>)
    ensures
        match outcome {
            ReadOutcome::NoConfigDir => res is None,
            ReadOutcome::Missing => res is None,
            ReadOutcome::Parsed(s) => res == Some(s),
            _ => res matches Some(s) && s@.tabs.len() == 0 && s@.active == 0,
        },
{
    match outcome {
        ReadOutcome::NoConfigDir => None,
        ReadOutcome::Missing => None,
        ReadOutcome::Parsed(s) => Some(s),
        _ => Some(Session::default()),
    }
}

impl Default for Session {
    fn default() -> (s: Session)
        ensures
            s@.tabs.len() == 0,
            s.active == 0,
    {
        Session { tabs: Vec::new(), active: 0 }
    }
}

impl Default for AppData {
    fn default() -> (d: AppData)
        ensures
            d.bookmarks@.len() == 0,
            d.history@.len() == 0,
    {
        AppData { bookmarks: Vec::new(), history: Vec::new() }
    }
}

impl AppData {
    /// The state at start-up, from the outcomes of reading the bookmarks and history files
    /// (empty where missing or invalid).
    pub fn load(bookmarks: ReadOutcome<Vec<Bookmark>>, history: ReadOutcome<Vec<HistoryEntry>>) -> (d: AppData)
        ensures
            match bookmarks {
                ReadOutcome::Parsed(v) => d.bookmarks@ == v@,
                _ => d.bookmarks@.len() == 0,
            },
            match history {
                ReadOutcome::Parsed(v) => d.history@ == v@,
                _ => d.history@.len() == 0,
            },
    {
        AppData { bookmarks: load_bookmarks(bookmarks), history: load_history(history) }
    }

    /// Records a visit in the in-memory history (see [`record_visit`]). Returns `true` when the
    /// history changed and must be persisted. Bookmarks are untouched.
    pub fn record_visit(&mut self, url: &str, title: &str) -> (changed: bool)
        ensures
            changed == (url@.len() > 0),
            final(self).bookmarks@ == old(self).bookmarks@,
            exists|now: u64|
                history_view(final(self).history@) == #[trigger] history_after_visit(history_view(old(self).history@), url@, title@, now),
    {
        record_visit(&mut self.history, url, title)
    }

    /// Bookmarks the page `url` titled `title` (the star button): nothing happens for an empty URL
    /// or a URL already bookmarked; an untitled page is labelled by its URL. Returns whether a
    /// bookmark was added (the caller then persists the bookmarks). The history is untouched.
    pub fn add_bookmark(&mut self, url: &str, title: &str) -> (added: bool)
        ensures
            added == !(url@.len() == 0 || bookmarked(bookmarks_view(old(self).bookmarks@), url@)),
            bookmarks_view(final(self).bookmarks@) == bookmarks_after_add(bookmarks_view(old(self).bookmarks@), url@, title@),
            final(self).history@ == old(self).history@,
    {
        if url.is_empty() {
            return false;
        }
        let url_owned = url.to_owned();
        let ghost bs = bookmarks_view(self.bookmarks@);
        let mut i: usize = 0;
        while i < self.bookmarks.len()
            invariant
                i <= self.bookmarks@.len(),
                bs == bookmarks_view(self.bookmarks@),
                url_owned@ == url@,
                forall|j: int| 0 <= j < i ==> #[trigger] bs[j].url != url@,
            decreases self.bookmarks@.len() - i,
        {
            if self.bookmarks[i].url == url_owned {
                assert(bs[i as int].url == url@);
                return false;
            }
            i = i + 1;
        }
        let label = if title.is_empty() { url.to_owned() } else { title.to_owned() };
        let ghost b = BookmarkView { title: label@, url: url@ };
        self.bookmarks.push(Bookmark { title: label, url: url_owned });
        assert(bookmarks_view(self.bookmarks@) =~= bs.push(b));
        true
    }

    /// Removes the bookmark at `index`; an index out of range changes nothing. Returns whether one
    /// was removed (the caller then persists the bookmarks).
    pub fn remove_bookmark(&mut self, index: usize) -> (removed: bool)
        ensures
            removed == (index < old(self).bookmarks@.len()),
            removed ==> final(self).bookmarks@ == old(self).bookmarks@.remove(index as int),
            !removed ==> final(self).bookmarks@ == old(self).bookmarks@,
            final(self).history@ == old(self).history@,
    {
        if index < self.bookmarks.len() {
            self.bookmarks.remove(index);
            true
        } else {
            false
        }
    }

    /// The URL of the bookmark at `index`, if there is one.
    pub fn bookmark_url(&self, index: usize) -> (url: Option<String>)
        ensures
            index < self.bookmarks@.len() ==> (url matches Some(u) && u@ == self.bookmarks@[index as int].url@),
            index >= self.bookmarks@.len() ==> url is None,
    {
        if index < self.bookmarks.len() {
            Some(self.bookmarks[index].url.clone())
        } else {
            None
        }
    }

    /// Clears the browsing history (the caller persists the empty list). Bookmarks are kept: they
    /// are the user's curation.
    pub fn clear_history(&mut self)
        ensures
            final(self).history@.len() == 0,
            final(self).bookmarks@ == old(self).bookmarks@,
    {
        self.history.clear();
    }
}

/// Whether some bookmark has the URL `url`.
pub open spec fn bookmarked(bs: Seq<BookmarkView>, url: Seq<char>) -> bool {
    exists|i: int| 0 <= i < bs.len() && #[trigger] bs[i].url == url
}

/// The bookmarks after bookmarking `url` titled `title` (see [`AppData::add_bookmark`]).
pub open spec fn bookmarks_after_add(bs: Seq<BookmarkView>, url: Seq<char>, title: Seq<char>) -> Seq<BookmarkView> {
    if url.len() == 0 || bookmarked(bs, url) {
        bs
    } else {
        bs.push(BookmarkView { title: if title.len() == 0 { url } else { title }, url })
    }
}

/// Whether no two bookmarks have the same URL.
pub open spec fn distinct_bookmark_urls(bs: Seq<BookmarkView>) -> bool {
    forall|i: int, j: int| 0 <= i < j < bs.len() ==> #[trigger] bs[i].url != #[trigger] bs[j].url
}

/// Bookmarking never creates a second bookmark for a URL: when the URLs are distinct before an
/// add, they are distinct after it.
pub proof fn add_keeps_bookmark_urls_distinct(bs: Seq<BookmarkView>, url: Seq<char>, title: Seq<char>)
    requires
        distinct_bookmark_urls(bs),
    ensures
        distinct_bookmark_urls(bookmarks_after_add(bs, url, title)),
{
    let after = bookmarks_after_add(bs, url, title);
    if !(url.len() == 0 || bookmarked(bs, url)) {
        assert forall|i: int, j: int| 0 <= i < j < after.len() implies #[trigger] after[i].url != #[trigger] after[j].url by {
            if j == bs.len() {
                assert(after[i].url == bs[i].url);
            } else {
                assert(after[i].url == bs[i].url);
                assert(after[j].url == bs[j].url);
            }
        }
    }
}

/// Removing a bookmark keeps the URLs distinct.
pub proof fn remove_keeps_bookmark_urls_distinct(bs: Seq<BookmarkView>, index: int)
    requires
        distinct_bookmark_urls(bs),
        0 <= index < bs.len(),
    ensures
        distinct_bookmark_urls(bs.remove(index)),
{
    let after = bs.remove(index);
    assert forall|i: int, j: int| 0 <= i < j < after.len() implies #[trigger] after[i].url != #[trigger] after[j].url by {
        let bi = if i < index { i } else { i + 1 };
        let bj = if j < index { j } else { j + 1 };
        assert(after[i] == bs[bi]);
        assert(after[j] == bs[bj]);
    }
}

/// The session to save from the live tabs: the URL of each tab that has one, in order, and the
/// active index clamped into that list. `None` when no tab has a URL (nothing is saved then).
pub fn session_snapshot(tab_urls: Vec<Option<String>>, active: usize) -> (res: Option<Session>)
    ensures
        match res {
            None => forall|i: int| 0 <= i < tab_urls@.len() ==> tab_urls@[i] is None,
            Some(s) => {
                &&& strings_view(s.tabs@) == present_urls(tab_urls@)
                &&& s.tabs@.len() > 0
                &&& s.active == if active < s.tabs@.len() { active as int } else { s.tabs@.len() - 1 }
            },
        },
{
    let mut tabs: Vec<String> = Vec::new();
    let n = tab_urls.len();
    let mut i: usize = 0;
    while i < n
        invariant
            n == tab_urls@.len(),
            i <= n,
            strings_view(tabs@) == present_urls(tab_urls@.take(i as int)),
        decreases n - i,
    {
        proof {
            assert(tab_urls@.take(i as int + 1).drop_last() =~= tab_urls@.take(i as int));
        }
        match &tab_urls[i] {
            Some(u) => {
                let ghost before = strings_view(tabs@);
                tabs.push(u.clone());
                assert(strings_view(tabs@) =~= before.push(u@));
            },
            None => {},
        }
        i = i + 1;
    }
    assert(tab_urls@.take(n as int) =~= tab_urls@);
    if tabs.len() == 0 {
        proof {
            lemma_no_present_urls(tab_urls@);
        }
        return None;
    }
    let last = tabs.len() - 1;
    let clamped = if active < last { active } else { last };
    Some(Session { tabs, active: clamped })
}

/// The URLs present in a list of optional URLs, in order.
pub open spec fn present_urls(s: Seq<Option<String>>) -> Seq<Seq<char>>
    decreases s.len(),
{
    if s.len() == 0 {
        Seq::empty()
    } else {
        let init = present_urls(s.drop_last());
        match s.last() {
            Some(u) => init.push(u@),
            None => init,
        }
    }
}

proof fn lemma_no_present_urls(s: Seq<Option<String>>)
    requires
        present_urls(s).len() == 0,
    ensures
        forall|i: int| 0 <= i < s.len() ==> s[i] is None,
    decreases s.len(),
{
    if s.len() > 0 {
        lemma_no_present_urls(s.drop_last());
        assert forall|i: int| 0 <= i < s.len() implies s[i] is None by {
            if i < s.len() - 1 {
                assert(s[i] == s.drop_last()[i]);
            }
        }
    }
}

} // verus!
