//! Address-bar text and tab labels: what the user typed becomes a URL (with an `https://`
//! shortcut), a tab without a title is labelled by its host, and the chrome shows a lock for
//! `https://` pages. URL parsing itself is done by the `url` crate.

use vstd::prelude::*;

use crate::text::{has_prefix, starts_with, trim, trimmed};

verus! {

/// The serialization of the absolute URL that `url::Url::parse` makes of `input`, or `None` when
/// it rejects it (WHATWG URL parsing).
pub uninterp spec fn parsed_url(input: Seq<char>) -> Option<Seq<char>>;

/// The host that `url::Url::parse` finds in `input` (`Url::host_str`), or `None` when the text
/// does not parse or the URL has no host.
pub uninterp spec fn url_host(input: Seq<char>) -> Option<Seq<char>>;

/// Calls `url::Url::parse` and hands back the URL's serialization (`String::from(Url)`).
/// The result is the name [`parsed_url`] of the input.
#[verifier::external_body]
fn parse_absolute_url(input: &str) -> (res: Option<String>)
    ensures
        res is None <==> parsed_url(input@) is None,
        res matches Some(u) ==> parsed_url(input@) == Some(u@),
{
    match url::Url::parse(input) {
        Ok(u) => Some(String::from(u)),
        Err(_) => None,
    }
}

/// Calls `url::Url::parse` and then `Url::host_str` on the result; the result is the name
/// [`url_host`] of the input.
#[verifier::external_body]
fn host_of_url(input: &str) -> (res: Option<String>)
    ensures
        res is None <==> url_host(input@) is None,
        res matches Some(h) ==> url_host(input@) == Some(h@),
{
    match url::Url::parse(input) {
        Ok(u) => match u.host_str() {
            Some(h) => Some(h.to_owned()),
            None => None,
        },
        Err(_) => None,
    }
}

pub open spec fn https_scheme() -> Seq<char> {
    seq!['h', 't', 't', 'p', 's', ':', '/', '/']
}

/// The URL the address bar makes of what the user typed: the trimmed text as an absolute URL if
/// it parses as one, else the trimmed text behind `https://`; `None` for blank text or when
/// neither parses.
pub open spec fn user_url(input: Seq<char>) -> Option<Seq<char>> {
    let t = trimmed(input);
    if t.len() == 0 {
        None
    } else if parsed_url(t) is Some {
        parsed_url(t)
    } else {
        parsed_url(https_scheme() + t)
    }
}

/// Interprets address-bar text as a URL (see [`user_url`]); returns the URL's serialization.
pub fn parse_user_url(input: &str) -> (res: Option<String>)
    ensures
        res is None <==> user_url(input@) is None,
        res matches Some(u) ==> user_url(input@) == Some(u@),
{
    let t = trim(input);
    if t.is_empty() {
        return None;
    }
    let direct = parse_absolute_url(t);
    if direct.is_some() {
        return direct;
    }
    let prefix = "https://";
    proof {
        reveal_strlit("https://");
    }
    assert(prefix@ =~= https_scheme());
    let with_scheme = String::from_str(prefix).concat(t);
    parse_absolute_url(with_scheme.as_str())
}

/// The label of a tab in the tab bar: the page title, or while it has none the URL's host, or the
/// empty text (the UI then shows its "new tab" placeholder).
pub open spec fn tab_label_of(title: Seq<char>, url: Seq<char>) -> Seq<char> {
    if title.len() > 0 {
        title
    } else {
        match url_host(url) {
            Some(h) => h,
            None => Seq::empty(),
        }
    }
}

/// The label of a tab (see [`tab_label_of`]).
pub fn tab_label(title: &str, url: &str) -> (label: String)
    ensures
        label@ == tab_label_of(title@, url@),
{
    if !title.is_empty() {
        return title.to_owned();
    }
    match host_of_url(url) {
        Some(h) => h,
        None => String::new(),
    }
}

/// Whether the chrome shows the page as secure: its URL starts with `https://`.
pub fn is_secure_url(url: &str) -> (secure: bool)
    ensures
        secure == has_prefix(url@, https_scheme()),
{
    let prefix = "https://";
    proof {
        reveal_strlit("https://");
    }
    assert(prefix@ =~= https_scheme());
    starts_with(url, prefix)
}

pub open spec fn app_name() -> Seq<char> {
    seq!['B', 'a', 's', 'e', 'd', 'B', 'r', 'o', 'w', 's', 'e', 'r']
}

/// The window title for a page title: the app name alone for an untitled page, otherwise
/// `"<title> — BasedBrowser"`.
pub open spec fn window_title_of(title: Seq<char>) -> Seq<char> {
    if title.len() == 0 {
        app_name()
    } else {
        title + seq![' ', '\u{2014}', ' '] + app_name()
    }
}

/// The window title for the active tab's page title (see [`window_title_of`]).
pub fn window_title(title: &str) -> (shown: String)
    ensures
        shown@ == window_title_of(title@),
{
    let name = "BasedBrowser";
    let sep = " \u{2014} ";
    proof {
        reveal_strlit("BasedBrowser");
        reveal_strlit(" \u{2014} ");
    }
    if title.is_empty() {
        return String::from_str(name);
    }
    let shown = String::from_str(title).concat(sep).concat(name);
    assert(shown@ =~= window_title_of(title@));
    shown
}

/// The URLs of a saved session that the address bar accepts, in order (the others are skipped).
pub open spec fn restorable_urls(tabs: Seq<Seq<char>>) -> Seq<Seq<char>>
    decreases tabs.len(),
{
    if tabs.len() == 0 {
        Seq::empty()
    } else {
        let init = restorable_urls(tabs.drop_last());
        match user_url(tabs.last()) {
            Some(u) => init.push(u),
            None => init,
        }
    }
}

} // verus!
