//! Searching the history for the history panel and the address-bar suggestions: newest first,
//! case-insensitive substring match on the URL or the title, one row per URL, at most `limit` rows.

use vstd::prelude::*;

use crate::persist::{history_view, AppData, HistoryEntry, HistoryEntryView};
use crate::text::{contains, contains_run};

verus! {

/// The text that `str::to_lowercase` makes of `s` (Unicode lowercase mapping).
pub uninterp spec fn lowercased(s: Seq<char>) -> Seq<char>;

/// Calls `str::to_lowercase`; the result is the name [`lowercased`] of the input.
#[verifier::external_body]
fn to_lowercase(s: &str) -> (l: String)
    ensures
        l@ == lowercased(s@),
{
    s.to_lowercase()
}

/// One row of a history search: the entry's title and URL.
#[derive(Debug, Clone, PartialEq, Eq)]
pub struct HistoryMatch {
    pub title: String,
    pub url: String,
}

/// Whether a history entry matches the lowercased query `q` (the empty query matches all).
pub open spec fn entry_matches(e: HistoryEntryView, q: Seq<char>) -> bool {
    ||| q.len() == 0
    ||| contains_run(lowercased(e.url), q)
    ||| contains_run(lowercased(e.title), q)
}

/// The rows for `entries` (newest first) matching `q`, skipping URLs already in `seen`, at most
/// `limit` of them: each row is `(title, url)`.
pub open spec fn search_rows(
    entries: Seq<HistoryEntryView>,
    q: Seq<char>,
    seen: Set<Seq<char>>,
    limit: nat,
) -> Seq<(Seq<char>, Seq<char>)>
    decreases entries.len(),
{
    if entries.len() == 0 || limit == 0 {
        Seq::empty()
    } else {
        let e = entries[0];
        if entry_matches(e, q) && !seen.contains(e.url) {
            seq![(e.title, e.url)] + search_rows(entries.drop_first(), q, seen.insert(e.url), (limit - 1) as nat)
        } else {
            search_rows(entries.drop_first(), q, seen, limit)
        }
    }
}

pub open spec fn matches_view(s: Seq<HistoryMatch>) -> Seq<(Seq<char>, Seq<char>)> {
    s.map_values(|m: HistoryMatch| (m.title@, m.url@))
}

/// The URLs of the rows found so far.
pub open spec fn row_urls(rows: Seq<(Seq<char>, Seq<char>)>) -> Set<Seq<char>> {
    Set::new(|u: Seq<char>| exists|i: int| 0 <= i < rows.len() && rows[i].1 == u)
}

fn url_listed(rows: &Vec<HistoryMatch>, url: &String) -> (found: bool)
    ensures
        found == row_urls(matches_view(rows@)).contains(url@),
{
    let mut i: usize = 0;
    while i < rows.len()
        invariant
            i <= rows@.len(),
            forall|j: int| 0 <= j < i ==> #[trigger] rows@[j].url@ != url@,
        decreases rows@.len() - i,
    {
        if rows[i].url == *url {
            assert(matches_view(rows@)[i as int].1 == url@);
            return true;
        }
        i = i + 1;
    }
    assert forall|j: int| 0 <= j < matches_view(rows@).len() implies matches_view(rows@)[j].1 != url@ by {
        assert(matches_view(rows@)[j].1 == rows@[j].url@);
    }
    false
}

/// Searches the history (see [`search_rows`]): newest first, entries whose lowercased URL or
/// title contains the lowercased query, one row per URL, at most `limit` rows.
pub fn filtered_history(data: &AppData, query: &str, limit: usize) -> (rows: Vec<HistoryMatch>)
    ensures
        matches_view(rows@) == search_rows(history_view(data.history@).reverse(), lowercased(query@), Set::empty(), limit as nat),
{
    let q = to_lowercase(query);
    let ghost all = history_view(data.history@).reverse();
    let n = data.history.len();
    let mut rows: Vec<HistoryMatch> = Vec::new();
    let mut k: usize = 0;
    proof {
        assert(row_urls(matches_view(rows@)) =~= Set::<Seq<char>>::empty());
        assert(all.skip(0) =~= all);
    }
    while k < n && rows.len() < limit
        invariant
            n == data.history@.len(),
            all == history_view(data.history@).reverse(),
            k <= n,
            rows@.len() <= limit,
            search_rows(all, q@, Set::empty(), limit as nat) == matches_view(rows@) + search_rows(
                all.skip(k as int),
                q@,
                row_urls(matches_view(rows@)),
                (limit - rows@.len()) as nat,
            ),
        decreases n - k,
    {
        let entry: &HistoryEntry = &data.history[n - 1 - k];
        let ghost e = entry@;
        let ghost rest = all.skip(k as int);
        let ghost seen = row_urls(matches_view(rows@));
        proof {
            assert(rest[0] == e);
            assert(rest.drop_first() =~= all.skip(k as int + 1));
        }
        let matched = q.as_str().is_empty() || contains(to_lowercase(entry.url.as_str()).as_str(), q.as_str())
            || contains(to_lowercase(entry.title.as_str()).as_str(), q.as_str());
        if matched && !url_listed(&rows, &entry.url) {
            let ghost before = matches_view(rows@);
            rows.push(HistoryMatch { title: entry.title.clone(), url: entry.url.clone() });
            proof {
                assert(matches_view(rows@) =~= before.push((e.title, e.url)));
                assert(row_urls(matches_view(rows@)) =~= seen.insert(e.url)) by {
                    assert forall|u: Seq<char>| row_urls(matches_view(rows@)).contains(u) implies seen.insert(e.url).contains(u) by {
                        let i = choose|i: int| 0 <= i < matches_view(rows@).len() && matches_view(rows@)[i].1 == u;
                        if i < before.len() {
                            assert(before[i].1 == u);
                        }
                    }
                    assert forall|u: Seq<char>| seen.insert(e.url).contains(u) implies row_urls(matches_view(rows@)).contains(u) by {
                        if u == e.url {
                            assert(matches_view(rows@)[before.len() as int].1 == u);
                        } else {
                            let i = choose|i: int| 0 <= i < before.len() && before[i].1 == u;
                            assert(matches_view(rows@)[i].1 == u);
                        }
                    }
                }
                assert(before + seq![(e.title, e.url)] =~= matches_view(rows@));
                assert(seq![(e.title, e.url)] + search_rows(all.skip(k as int + 1), q@, seen.insert(e.url), (limit - before.len() - 1) as nat)
                    == search_rows(rest, q@, seen, (limit - before.len()) as nat));
                assert((before + seq![(e.title, e.url)]) + search_rows(all.skip(k as int + 1), q@, seen.insert(e.url), (limit - before.len() - 1) as nat)
                    =~= before + (seq![(e.title, e.url)] + search_rows(all.skip(k as int + 1), q@, seen.insert(e.url), (limit - before.len() - 1) as nat)));
            }
        }
        k = k + 1;
    }
    proof {
        if k == n {
            assert(all.skip(k as int).len() == 0);
        }
        assert(matches_view(rows@) + Seq::empty() =~= matches_view(rows@));
    }
    rows
}

/// Rows shown by the history panel (and its search box).
pub const HISTORY_PANEL_LIMIT: usize = 200;

/// Suggestions shown under the address bar while typing.
pub const SUGGESTION_LIMIT: usize = 6;

/// The rows of the history panel for `query` (empty: the most recent history).
pub fn history_panel(data: &AppData, query: &str) -> (rows: Vec<HistoryMatch>)
    ensures
        matches_view(rows@) == search_rows(history_view(data.history@).reverse(), lowercased(query@), Set::empty(), HISTORY_PANEL_LIMIT as nat),
{
    filtered_history(data, query, HISTORY_PANEL_LIMIT)
}

/// The address-bar suggestions for the typed text: none for empty text, else the first matches.
pub fn url_suggestions(data: &AppData, text: &str) -> (rows: Vec<HistoryMatch>)
    ensures
        text@.len() == 0 ==> rows@.len() == 0,
        text@.len() > 0 ==> matches_view(rows@) == search_rows(history_view(data.history@).reverse(), lowercased(text@), Set::empty(), SUGGESTION_LIMIT as nat),
{
    if text.is_empty() {
        Vec::new()
    } else {
        filtered_history(data, text, SUGGESTION_LIMIT)
    }
}

/// A search lists each URL at most once, and never more rows than the limit.
pub proof fn search_rows_distinct_and_bounded(
    entries: Seq<HistoryEntryView>,
    q: Seq<char>,
    seen: Set<Seq<char>>,
    limit: nat,
)
    ensures
        search_rows(entries, q, seen, limit).len() <= limit,
        forall|i: int| 0 <= i < search_rows(entries, q, seen, limit).len() ==> !seen.contains(#[trigger] search_rows(entries, q, seen, limit)[i].1),
        forall|i: int, j: int| 0 <= i < j < search_rows(entries, q, seen, limit).len() ==> #[trigger] search_rows(entries, q, seen, limit)[i].1 != #[trigger] search_rows(entries, q, seen, limit)[j].1,
    decreases entries.len(),
{
    if entries.len() == 0 || limit == 0 {
    } else {
        let e = entries[0];
        if entry_matches(e, q) && !seen.contains(e.url) {
            let rest = search_rows(entries.drop_first(), q, seen.insert(e.url), (limit - 1) as nat);
            search_rows_distinct_and_bounded(entries.drop_first(), q, seen.insert(e.url), (limit - 1) as nat);
            let all = search_rows(entries, q, seen, limit);
            assert(all == seq![(e.title, e.url)] + rest);
            assert forall|i: int| 0 <= i < all.len() implies !seen.contains(#[trigger] all[i].1) by {
                if i > 0 {
                    assert(all[i] == rest[i - 1]);
                }
            }
            assert forall|i: int, j: int| 0 <= i < j < all.len() implies #[trigger] all[i].1 != #[trigger] all[j].1 by {
                assert(all[j] == rest[j - 1]);
                if i > 0 {
                    assert(all[i] == rest[i - 1]);
                } else {
                    assert(!seen.insert(e.url).contains(rest[j - 1].1));
                }
            }
        } else {
            search_rows_distinct_and_bounded(entries.drop_first(), q, seen, limit);
        }
    }
}

/// Every entry that the query finds is listed while the limit is not reached: an entry (newest
/// first) whose URL or title, lowercased, contains the query (or any entry, for the empty query)
/// has its URL among the rows unless it was already seen. Matching ignores the case of the URL
/// and of the title.
pub proof fn search_lists_every_match(entries: Seq<HistoryEntryView>, q: Seq<char>, seen: Set<Seq<char>>, limit: nat, k: int)
    requires
        0 <= k < entries.len(),
        search_rows(entries, q, seen, limit).len() < limit,
        q.len() == 0 || contains_run(lowercased(entries[k].url), q) || contains_run(lowercased(entries[k].title), q),
    ensures
        seen.contains(entries[k].url) || exists|i: int|
            0 <= i < search_rows(entries, q, seen, limit).len() && #[trigger] search_rows(entries, q, seen, limit)[i].1
                == entries[k].url,
    decreases entries.len(),
{
    let e = entries[0];
    let rows = search_rows(entries, q, seen, limit);
    if entry_matches(e, q) && !seen.contains(e.url) {
        assert(rows[0].1 == e.url);
        if k > 0 {
            let rest = entries.drop_first();
            assert(rest[k - 1] == entries[k]);
            let seen2 = seen.insert(e.url);
            search_lists_every_match(rest, q, seen2, (limit - 1) as nat, k - 1);
            let r2 = search_rows(rest, q, seen2, (limit - 1) as nat);
            if !seen2.contains(entries[k].url) {
                let i = choose|i: int| 0 <= i < r2.len() && #[trigger] r2[i].1 == entries[k].url;
                assert(rows[i + 1] == r2[i]);
            } else if entries[k].url == e.url {
                assert(rows[0].1 == entries[k].url);
            }
        }
    } else if k > 0 {
        let rest = entries.drop_first();
        assert(rest[k - 1] == entries[k]);
        search_lists_every_match(rest, q, seen, limit, k - 1);
    }
}

/// Every row is a match: it carries the title and URL of an entry whose URL or title, lowercased,
/// contains the query (any entry for the empty query).
pub proof fn search_rows_are_matches(entries: Seq<HistoryEntryView>, q: Seq<char>, seen: Set<Seq<char>>, limit: nat, i: int)
    requires
        0 <= i < search_rows(entries, q, seen, limit).len(),
    ensures
        exists|k: int| 0 <= k < entries.len() && search_rows(entries, q, seen, limit)[i] == (#[trigger] entries[k].title,
            entries[k].url) && (q.len() == 0 || contains_run(lowercased(entries[k].url), q) || contains_run(
            lowercased(entries[k].title),
            q,
        )),
    decreases entries.len(),
{
    let e = entries[0];
    let rest = entries.drop_first();
    if entry_matches(e, q) && !seen.contains(e.url) {
        if i == 0 {
            assert(entries[0].title == e.title);
        } else {
            search_rows_are_matches(rest, q, seen.insert(e.url), (limit - 1) as nat, i - 1);
            let k = choose|k: int| 0 <= k < rest.len() && search_rows(rest, q, seen.insert(e.url), (limit - 1) as nat)[i - 1]
                == (#[trigger] rest[k].title, rest[k].url) && (q.len() == 0 || contains_run(lowercased(rest[k].url), q)
                || contains_run(lowercased(rest[k].title), q));
            assert(entries[k + 1] == rest[k]);
        }
    } else {
        search_rows_are_matches(rest, q, seen, limit, i);
        let k = choose|k: int| 0 <= k < rest.len() && search_rows(rest, q, seen, limit)[i] == (#[trigger] rest[k].title,
            rest[k].url) && (q.len() == 0 || contains_run(lowercased(rest[k].url), q) || contains_run(
            lowercased(rest[k].title),
            q,
        ));
        assert(entries[k + 1] == rest[k]);
    }
}

} // verus!
