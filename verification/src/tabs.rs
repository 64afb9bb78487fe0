//! Tab-list bookkeeping: the open tabs in order and which one is active. The tab payload (the
//! engine's web view and its rendering context) is generic; showing, hiding and throttling the
//! views after a change of the active tab is the caller's work.

use vstd::prelude::*;

use crate::devtools::{parse_unsigned, unsigned_value};
use crate::persist::{strings_view, Session};
use crate::weburl::{parse_user_url, restorable_urls, user_url};

verus! {

/// How to reopen a saved session: the URLs to open as tabs, in order, and which one to activate.
pub struct RestorePlan {
    pub urls: Vec<String>,
    pub active: usize,
}

/// How many extra background tabs the footprint harness opens: the setting names a total number of
/// tabs (an unsigned decimal); when it is larger than the number already open, the difference,
/// otherwise none (also without the setting or with a value that is no number).
pub fn extra_tab_count(raw: Option<&str>, open: usize) -> (extra: usize)
    ensures
        extra == match raw {
            None => 0,
            Some(r) => match unsigned_value(r@, usize::MAX as nat) {
                Some(t) => if t > open { (t - open) as int } else { 0 },
                None => 0,
            },
        },
{
    match raw {
        None => 0,
        Some(r) => match parse_unsigned(r, usize::MAX) {
            Some(t) => if t > open { t - open } else { 0 },
            None => 0,
        },
    }
}

/// Where the restored tabs put the active one: the tab reopened from the saved active tab when that
/// one is reopened; otherwise (its URL is skipped, or the saved index is past the saved tabs) the
/// saved index clamped into the `count` reopened tabs.
pub open spec fn restored_active(tabs: Seq<Seq<char>>, active: int, count: int) -> int {
    if 0 <= active < tabs.len() && user_url(tabs[active]) is Some {
        restorable_urls(tabs.take(active)).len() as int
    } else if active < count - 1 {
        active
    } else {
        count - 1
    }
}

/// Plans the restoration of a saved session: every saved URL that the address bar accepts is
/// reopened (the others are skipped) and the tab that was active is activated again (see
/// [`restored_active`]). `None` when there is no session or nothing in it can be reopened (the
/// home page opens instead).
pub fn restore_plan(session: Option<Session>) -> (plan: Option<RestorePlan>)
    ensures
        match session {
            None => plan is None,
            Some(s) => {
                let urls = restorable_urls(s@.tabs);
                if urls.len() == 0 {
                    plan is None
                } else {
                    plan matches Some(p) && strings_view(p.urls@) == urls && p.active
                        == restored_active(s@.tabs, s.active as int, urls.len() as int)
                }
            },
        },
{
    let s = match session {
        None => {
            return None;
        },
        Some(s) => s,
    };
    let n = s.tabs.len();
    let ghost tabs = strings_view(s.tabs@);
    let mut urls: Vec<String> = Vec::new();
    let mut reopened_active: Option<usize> = None;
    let mut i: usize = 0;
    while i < n
        invariant
            n == s.tabs@.len(),
            tabs == strings_view(s.tabs@),
            i <= n,
            strings_view(urls@) == restorable_urls(tabs.take(i as int)),
            i <= s.active ==> reopened_active is None,
            s.active < i ==> (reopened_active is Some <==> user_url(tabs[s.active as int]) is Some),
            reopened_active matches Some(k) ==> k == restorable_urls(tabs.take(s.active as int)).len()
                && k < urls@.len(),
        decreases n - i,
    {
        proof {
            assert(tabs.take(i as int + 1).drop_last() =~= tabs.take(i as int));
            assert(tabs.take(i as int + 1).last() == tabs[i as int]);
        }
        match parse_user_url(s.tabs[i].as_str()) {
            Some(u) => {
                if i == s.active {
                    reopened_active = Some(urls.len());
                }
                let ghost before = strings_view(urls@);
                urls.push(u);
                assert(strings_view(urls@) =~= before.push(u@));
            },
            None => {},
        }
        i = i + 1;
    }
    assert(tabs.take(n as int) =~= tabs);
    if urls.len() == 0 {
        return None;
    }
    let last = urls.len() - 1;
    let active = match reopened_active {
        Some(k) => k,
        None => if s.active < last { s.active } else { last },
    };
    Some(RestorePlan { urls, active })
}

/// The open tabs and the index of the active one. Invariant: when there are tabs, the active index
/// points at one of them; with no tabs it is 0.
pub struct TabList<T> {
    tabs: Vec<T>,
    active: usize,
}

impl<T> TabList<T> {
    /// The list's invariant.
    pub open spec fn wf(&self) -> bool {
        &&& self.active() < self.tabs().len() || (self.tabs().len() == 0 && self.active() == 0)
    }

    /// The tabs, in order.
    pub closed spec fn tabs(&self) -> Seq<T> {
        self.tabs@
    }

    /// The index of the active tab.
    pub closed spec fn active(&self) -> nat {
        self.active as nat
    }

    /// An empty list.
    pub fn new() -> (l: TabList<T>)
        ensures
            l.wf(),
            l.tabs().len() == 0,
            l.active() == 0,
    {
        TabList { tabs: Vec::new(), active: 0 }
    }

    /// Number of open tabs.
    pub fn len(&self) -> (n: usize)
        ensures
            n == self.tabs().len(),
    {
        self.tabs.len()
    }

    /// Index of the active tab.
    pub fn active_index(&self) -> (i: usize)
        ensures
            i == self.active(),
    {
        self.active
    }

    /// The tab at `index`, if there is one.
    pub fn get(&self, index: usize) -> (t: Option<&T>)
        ensures
            index < self.tabs().len() ==> t == Some(&self.tabs()[index as int]),
            index >= self.tabs().len() ==> t is None,
    {
        if index < self.tabs.len() {
            Some(&self.tabs[index])
        } else {
            None
        }
    }

    /// The active tab (`None` only when there are no tabs).
    pub fn active_tab(&self) -> (t: Option<&T>)
        requires
            self.wf(),
        ensures
            self.tabs().len() > 0 ==> t == Some(&self.tabs()[self.active() as int]),
            self.tabs().len() == 0 ==> t is None,
    {
        self.get(self.active)
    }

    /// Makes the tab at `index` the active one. Returns `false` (and changes nothing) when `index`
    /// is out of range.
    pub fn set_active(&mut self, index: usize) -> (done: bool)
        requires
            old(self).wf(),
        ensures
            final(self).wf(),
            final(self).tabs() == old(self).tabs(),
            done == (index < old(self).tabs().len()),
            done ==> final(self).active() == index,
            !done ==> final(self).active() == old(self).active(),
    {
        if index >= self.tabs.len() {
            return false;
        }
        self.active = index;
        true
    }

    /// Appends a tab and returns its index; when `activate` is set the new tab becomes active,
    /// otherwise the active tab stays the same.
    pub fn open(&mut self, tab: T, activate: bool) -> (index: usize)
        requires
            old(self).wf(),
            old(self).tabs().len() < usize::MAX,
        ensures
            final(self).wf(),
            final(self).tabs() == old(self).tabs().push(tab),
            index == old(self).tabs().len(),
            activate ==> final(self).active() == index,
            !activate ==> final(self).active() == old(self).active(),
    {
        let index = self.tabs.len();
        self.tabs.push(tab);
        if activate {
            self.active = index;
        }
        index
    }

    /// Closes the tab at `index` and hands it back (dropping it closes the web view). Refuses to
    /// close the last remaining tab or an index out of range (`None`, nothing changes). After a
    /// close, a tab that was left of the active one shifts the active index down by one, so the
    /// same tab stays active; closing the active tab activates the tab that took its place, or the
    /// new last tab.
    pub fn close(&mut self, index: usize) -> (removed: Option<T>)
        requires
            old(self).wf(),
        ensures
            final(self).wf(),
            removed is Some <==> (old(self).tabs().len() > 1 && index < old(self).tabs().len()),
            removed is None ==> *final(self) == *old(self),
            removed matches Some(t) ==> {
                &&& t == old(self).tabs()[index as int]
                &&& final(self).tabs() == old(self).tabs().remove(index as int)
                &&& final(self).active() == active_after_close(old(self).active(), index as nat, old(self).tabs().len())
            },
    {
        if self.tabs.len() <= 1 || index >= self.tabs.len() {
            return None;
        }
        let t = self.tabs.remove(index);
        let new_active = if self.active > index {
            self.active - 1
        } else if self.active < self.tabs.len() - 1 {
            self.active
        } else {
            self.tabs.len() - 1
        };
        self.active = new_active;
        Some(t)
    }

    /// The index that Ctrl+Tab moves to: the next tab, wrapping around (`None` with no tabs).
    pub fn next_index(&self) -> (next: Option<usize>)
        requires
            self.wf(),
        ensures
            self.tabs().len() == 0 ==> next is None,
            self.tabs().len() > 0 ==> next == Some(((self.active() + 1) % self.tabs().len()) as usize),
    {
        if self.tabs.len() == 0 {
            None
        } else {
            Some((self.active + 1) % self.tabs.len())
        }
    }
}

/// The active index after closing the tab at `index` out of `len` tabs.
pub open spec fn active_after_close(active: nat, index: nat, len: nat) -> nat {
    if active > index {
        (active - 1) as nat
    } else if active < len - 2 {
        active
    } else {
        (len - 2) as nat
    }
}

/// Closing a tab other than the active one keeps the same tab active: the tab active after the
/// close is the tab that was active before.
pub proof fn close_keeps_active_tab<T>(before: TabList<T>, after: TabList<T>, index: nat)
    requires
        before.wf(),
        before.tabs().len() > 1,
        index < before.tabs().len(),
        index != before.active(),
        after.tabs() == before.tabs().remove(index as int),
        after.active() == active_after_close(before.active(), index, before.tabs().len()),
    ensures
        after.tabs()[after.active() as int] == before.tabs()[before.active() as int],
{
}

/// Cycling with [`TabList::next_index`] as many times as there are tabs comes back to the start.
pub proof fn cycle_returns_to_start(active: nat, len: nat)
    requires
        active < len,
    ensures
        cycle(active, len, len) == active,
{
    lemma_cycle(active, len, len);
    vstd::arithmetic::div_mod::lemma_mod_add_multiples_vanish(active as int, len as int);
    vstd::arithmetic::div_mod::lemma_small_mod(active, len);
}

/// The index reached from `active` after `steps` presses of Ctrl+Tab over `len` tabs.
pub open spec fn cycle(active: nat, len: nat, steps: nat) -> nat
    decreases steps,
{
    if steps == 0 {
        active
    } else {
        ((cycle(active, len, (steps - 1) as nat) + 1) % len) as nat
    }
}

proof fn lemma_cycle(active: nat, len: nat, steps: nat)
    requires
        active < len,
    ensures
        cycle(active, len, steps) == ((active + steps) as int) % (len as int),
    decreases steps,
{
    if steps > 0 {
        lemma_cycle(active, len, (steps - 1) as nat);
        vstd::arithmetic::div_mod::lemma_add_mod_noop_right(1, active + steps - 1, len as int);
    } else {
        vstd::arithmetic::div_mod::lemma_small_mod(active, len);
    }
}

} // verus!
