//! The devtools client's messages and its handshake decisions: ask the root actor for the tabs
//! (again until a tab is listed), ask the first tab for its watcher, and subscribe the watcher to
//! network events; later, ask each network-event actor for its details. Messages are compact JSON
//! objects with their keys in sorted order.

use vstd::prelude::*;
use vstd::utf8::encode_utf8;

use crate::json::{as_array, as_str, get, json_as_array, json_as_str, json_get, Json};
use crate::json_text::{json_quoted, json_string_literal};
use crate::rdp_wire::{frame_message, frame_of};
use crate::text::same_text;

verus! {

/// The text of the message `{"to":<to>,"type":<kind>}`.
pub open spec fn request_text(to: Seq<char>, kind: Seq<char>) -> Seq<char> {
    seq!['{', '"', 't', 'o', '"', ':'] + json_quoted(to) + seq![',', '"', 't', 'y', 'p', 'e', '"', ':']
        + json_quoted(kind) + seq!['}']
}

/// The text of the subscription
/// `{"resourceTypes":["network-event"],"to":<watcher>,"type":"watchResources"}`.
pub open spec fn watch_text(watcher: Seq<char>) -> Seq<char> {
    watch_head() + json_quoted(watcher) + watch_tail()
}

pub open spec fn watch_head() -> Seq<char> {
    seq![
        '{', '"', 'r', 'e', 's', 'o', 'u', 'r', 'c', 'e', 'T', 'y', 'p', 'e', 's', '"', ':', '[',
        '"', 'n', 'e', 't', 'w', 'o', 'r', 'k', '-', 'e', 'v', 'e', 'n', 't', '"', ']', ',', '"',
        't', 'o', '"', ':',
    ]
}

pub open spec fn watch_tail() -> Seq<char> {
    seq![
        ',', '"', 't', 'y', 'p', 'e', '"', ':', '"', 'w', 'a', 't', 'c', 'h', 'R', 'e', 's', 'o',
        'u', 'r', 'c', 'e', 's', '"', '}',
    ]
}

fn quote(s: &str) -> (q: String)
    ensures
        q@ == json_quoted(s@),
{
    match json_string_literal(s) {
        Ok(q) => q,
        Err(_) => String::new(),
    }
}

/// The framed message `{"to":<to>,"type":<kind>}`, ready for the socket.
pub fn request_frame(to: &str, kind: &str) -> (frame: Vec<u8>)
    ensures
        frame@ == frame_of(encode_utf8(request_text(to@, kind@))),
{
    let head = "{\"to\":";
    let mid = ",\"type\":";
    let tail = "}";
    proof {
        reveal_strlit("{\"to\":");
        reveal_strlit(",\"type\":");
        reveal_strlit("}");
    }
    let text = String::from_str(head).concat(quote(to).as_str()).concat(mid).concat(quote(kind).as_str()).concat(tail);
    assert(text@ =~= request_text(to@, kind@));
    frame_message(text.as_str())
}

/// The framed subscription of `watcher` to network events.
pub fn watch_frame(watcher: &str) -> (frame: Vec<u8>)
    ensures
        frame@ == frame_of(encode_utf8(watch_text(watcher@))),
{
    let head = "{\"resourceTypes\":[\"network-event\"],\"to\":";
    let tail = ",\"type\":\"watchResources\"}";
    proof {
        reveal_strlit("{\"resourceTypes\":[\"network-event\"],\"to\":");
        reveal_strlit(",\"type\":\"watchResources\"}");
    }
    assert(head@ =~= watch_head());
    assert(tail@ =~= watch_tail());
    let text = String::from_str(head).concat(quote(watcher).as_str()).concat(tail);
    assert(text@ =~= watch_text(watcher@));
    frame_message(text.as_str())
}

pub open spec fn root_text() -> Seq<char> {
    seq!['r', 'o', 'o', 't']
}

pub open spec fn list_tabs_text() -> Seq<char> {
    seq!['l', 'i', 's', 't', 'T', 'a', 'b', 's']
}

/// The framed `listTabs` request to the root actor.
pub fn list_tabs_frame() -> (frame: Vec<u8>)
    ensures
        frame@ == frame_of(encode_utf8(request_text(root_text(), list_tabs_text()))),
{
    proof {
        reveal_strlit("root");
        reveal_strlit("listTabs");
    }
    assert("root"@ =~= root_text());
    assert("listTabs"@ =~= list_tabs_text());
    request_frame("root", "listTabs")
}

pub open spec fn get_watcher_text() -> Seq<char> {
    seq!['g', 'e', 't', 'W', 'a', 't', 'c', 'h', 'e', 'r']
}

/// The framed `getWatcher` request to a tab actor.
pub fn get_watcher_frame(tab_actor: &str) -> (frame: Vec<u8>)
    ensures
        frame@ == frame_of(encode_utf8(request_text(tab_actor@, get_watcher_text()))),
{
    proof {
        reveal_strlit("getWatcher");
    }
    assert("getWatcher"@ =~= get_watcher_text());
    request_frame(tab_actor, "getWatcher")
}

pub open spec fn detail_kinds() -> Seq<Seq<char>> {
    seq![
        seq!['g', 'e', 't', 'R', 'e', 'q', 'u', 'e', 's', 't', 'H', 'e', 'a', 'd', 'e', 'r', 's'],
        seq!['g', 'e', 't', 'R', 'e', 's', 'p', 'o', 'n', 's', 'e', 'H', 'e', 'a', 'd', 'e', 'r', 's'],
        seq!['g', 'e', 't', 'R', 'e', 's', 'p', 'o', 'n', 's', 'e', 'C', 'o', 'n', 't', 'e', 'n', 't'],
    ]
}

/// The framed detail requests for a network-event actor, in the order the replies are told apart
/// by: request headers, response headers, response content.
pub fn detail_frames(actor: &str) -> (frames: Vec<Vec<u8>>)
    ensures
        frames@.len() == 3,
        forall|k: int| 0 <= k < 3 ==> #[trigger] frames@[k]@ == frame_of(encode_utf8(request_text(actor@, detail_kinds()[k]))),
{
    proof {
        reveal_strlit("getRequestHeaders");
        reveal_strlit("getResponseHeaders");
        reveal_strlit("getResponseContent");
    }
    assert("getRequestHeaders"@ =~= detail_kinds()[0]);
    assert("getResponseHeaders"@ =~= detail_kinds()[1]);
    assert("getResponseContent"@ =~= detail_kinds()[2]);
    let mut frames: Vec<Vec<u8>> = Vec::new();
    frames.push(request_frame(actor, "getRequestHeaders"));
    frames.push(request_frame(actor, "getResponseHeaders"));
    frames.push(request_frame(actor, "getResponseContent"));
    frames
}

/// Whether a packet is the reply to `listTabs` (it has a `tabs` member).
pub fn is_tab_list(packet: &Json) -> (b: bool)
    ensures
        b == (json_get(*packet, seq!['t', 'a', 'b', 's']) is Some),
{
    proof {
        reveal_strlit("tabs");
    }
    assert("tabs"@ =~= seq!['t', 'a', 'b', 's']);
    get(packet, "tabs").is_some()
}

/// The actor of the first listed tab: `tabs[0].actor`, when it is a string.
pub open spec fn first_tab_actor_of(reply: Json) -> Option<Seq<char>> {
    match json_as_array(json_get(reply, seq!['t', 'a', 'b', 's'])) {
        Some(tabs) => if tabs.len() > 0 {
            json_as_str(json_get(tabs[0], seq!['a', 'c', 't', 'o', 'r']))
        } else {
            None
        },
        None => None,
    }
}

/// The actor of the first listed tab (see [`first_tab_actor_of`]); `None` while no tab is listed
/// yet (the client then asks again).
pub fn first_tab_actor(reply: &Json) -> (actor: Option<String>)
    ensures
        match actor {
            Some(a) => first_tab_actor_of(*reply) == Some(a@),
            None => first_tab_actor_of(*reply) is None,
        },
{
    proof {
        reveal_strlit("tabs");
        reveal_strlit("actor");
    }
    assert("tabs"@ =~= seq!['t', 'a', 'b', 's']);
    assert("actor"@ =~= seq!['a', 'c', 't', 'o', 'r']);
    let tabs = match as_array(get(reply, "tabs")) {
        Some(t) => t,
        None => {
            return None;
        },
    };
    if tabs.len() == 0 {
        return None;
    }
    match as_str(get(&tabs[0], "actor")) {
        Some(a) => Some(a.clone()),
        None => None,
    }
}

/// The client watches the first listed tab: when the `tabs` array of a `listTabs` reply is not
/// empty and its element 0 names a string actor, that actor is the tab chosen (and the target of
/// `getWatcher`), whatever the later elements are; with no tab listed, none is chosen and the
/// client asks again.
pub proof fn first_listed_tab_is_chosen(reply: Json, tabs: Seq<Json>, actor: Seq<char>)
    requires
        json_as_array(json_get(reply, seq!['t', 'a', 'b', 's'])) == Some(tabs),
    ensures
        tabs.len() > 0 && json_as_str(json_get(tabs[0], seq!['a', 'c', 't', 'o', 'r'])) == Some(actor)
            ==> first_tab_actor_of(reply) == Some(actor),
        tabs.len() == 0 ==> first_tab_actor_of(reply) is None,
{
}

/// The watcher named by a `getWatcher` reply: the `actor` member of a packet from `tab_actor`.
pub open spec fn watcher_of(reply: Json, tab_actor: Seq<char>) -> Option<Seq<char>> {
    if json_as_str(json_get(reply, seq!['f', 'r', 'o', 'm'])) == Some(tab_actor) {
        json_as_str(json_get(reply, seq!['a', 'c', 't', 'o', 'r']))
    } else {
        None
    }
}

/// The watcher named by a packet, if it is the tab's `getWatcher` reply (see [`watcher_of`]).
pub fn watcher_actor(reply: &Json, tab_actor: &str) -> (watcher: Option<String>)
    ensures
        match watcher {
            Some(w) => watcher_of(*reply, tab_actor@) == Some(w@),
            None => watcher_of(*reply, tab_actor@) is None,
        },
{
    proof {
        reveal_strlit("from");
        reveal_strlit("actor");
    }
    assert("from"@ =~= seq!['f', 'r', 'o', 'm']);
    assert("actor"@ =~= seq!['a', 'c', 't', 'o', 'r']);
    let from_tab = match as_str(get(reply, "from")) {
        Some(f) => same_text(f.as_str(), tab_actor),
        None => false,
    };
    if !from_tab {
        return None;
    }
    match as_str(get(reply, "actor")) {
        Some(a) => Some(a.clone()),
        None => None,
    }
}

/// Where the client stands in the handshake: waiting for the root actor's greeting, for the list
/// of tabs, for the tab's watcher (the tab actor is kept), or subscribed through a watcher (every
/// packet from then on is network traffic).
#[derive(Debug, PartialEq, Eq)]
pub enum Handshake {
    AwaitRoot,
    AwaitTabs,
    AwaitWatcher(String),
    Watching(String),
}

/// What the caller does after a handshake step.
#[derive(Debug, PartialEq, Eq)]
pub enum HandshakeAction {
    /// Nothing: read the next packet.
    Wait,
    /// Write this frame.
    Send(Vec<u8>),
    /// Pause briefly (the tab may not be registered yet), then write this frame.
    SendAfterPause(Vec<u8>),
    /// Hand the packet to the network client.
    Ingest,
}

/// One step of the handshake on a packet: the greeting is answered with `listTabs`; a tab list
/// with a tab leads to `getWatcher` for its first tab, an empty one to `listTabs` again after a
/// pause; the tab's `getWatcher` reply leads to the subscription of the named watcher; once
/// subscribed, every packet is network traffic. Unrelated packets are skipped.
pub fn handshake_step(state: Handshake, packet: &Json) -> (r: (Handshake, HandshakeAction))
    ensures
        match state {
            Handshake::AwaitRoot => r.0 == Handshake::AwaitTabs && (r.1 matches HandshakeAction::Send(f)
                && f@ == frame_of(encode_utf8(request_text(root_text(), list_tabs_text())))),
            Handshake::AwaitTabs => if json_get(*packet, seq!['t', 'a', 'b', 's']) is None {
                r.0 == Handshake::AwaitTabs && r.1 == HandshakeAction::Wait
            } else {
                match first_tab_actor_of(*packet) {
                    Some(a) => (r.0 matches Handshake::AwaitWatcher(t) && t@ == a) && (r.1 matches HandshakeAction::Send(f)
                        && f@ == frame_of(encode_utf8(request_text(a, get_watcher_text())))),
                    None => r.0 == Handshake::AwaitTabs && (r.1 matches HandshakeAction::SendAfterPause(f)
                        && f@ == frame_of(encode_utf8(request_text(root_text(), list_tabs_text())))),
                }
            },
            Handshake::AwaitWatcher(tab) => match watcher_of(*packet, tab@) {
                Some(w) => (r.0 matches Handshake::Watching(x) && x@ == w) && (r.1 matches HandshakeAction::Send(f)
                    && f@ == frame_of(encode_utf8(watch_text(w)))),
                None => (r.0 matches Handshake::AwaitWatcher(t) && t@ == tab@) && r.1 == HandshakeAction::Wait,
            },
            Handshake::Watching(w) => (r.0 matches Handshake::Watching(x) && x@ == w@) && r.1
                == HandshakeAction::Ingest,
        },
{
    match state {
        Handshake::AwaitRoot => (Handshake::AwaitTabs, HandshakeAction::Send(list_tabs_frame())),
        Handshake::AwaitTabs => {
            if !is_tab_list(packet) {
                return (Handshake::AwaitTabs, HandshakeAction::Wait);
            }
            match first_tab_actor(packet) {
                Some(a) => {
                    let frame = get_watcher_frame(a.as_str());
                    (Handshake::AwaitWatcher(a), HandshakeAction::Send(frame))
                },
                None => (Handshake::AwaitTabs, HandshakeAction::SendAfterPause(list_tabs_frame())),
            }
        },
        Handshake::AwaitWatcher(tab) => match watcher_actor(packet, tab.as_str()) {
            Some(w) => {
                let frame = watch_frame(w.as_str());
                (Handshake::Watching(w), HandshakeAction::Send(frame))
            },
            None => (Handshake::AwaitWatcher(tab), HandshakeAction::Wait),
        },
        Handshake::Watching(w) => (Handshake::Watching(w), HandshakeAction::Ingest),
    }
}

} // verus!
