//! The devtools network client's state machine. After the handshake, the engine's devtools server
//! sends `resources-available-array` (the request side of each network event: actor, method, URL,
//! resource id) and `resources-updated-array` (status, "response headers available"); once a
//! response is available the client asks the event's actor for the request headers, the response
//! headers and the response content, and the replies fill in the record. After every packet the
//! touched records are emitted to the UI as snapshots.
//!
//! The caller reads packets from the socket, hands each one to [`NetClient::handle`], writes the
//! detail requests it returns and forwards the emitted records to the UI.

use vstd::prelude::*;
use vstd::hash_map::StringHashMap;
use std::collections::HashMap;

use crate::devtools::{clone_headers, headers_view, truncate, truncated_body, NetRecord, NetRecordView};
use crate::json::{
    as_array, as_bool, as_str, as_u64, get, json_as_array, json_as_bool, json_as_str, json_as_u64,
    json_get, compact_text, opt, to_json_text, Json,
};
use crate::text::same_text;

verus! {

broadcast use vstd::std_specs::hash::group_hash_axioms;

/// The client's state, as maps.
pub struct ClientView {
    /// Network-event actor to resource id.
    pub id_by_actor: Map<Seq<char>, u64>,
    /// Resource id to network-event actor.
    pub actor_by_id: Map<u64, Seq<char>>,
    /// The records gathered so far, by resource id.
    pub records: Map<u64, NetRecordView>,
    /// Resource ids whose details were already requested.
    pub fetched: Map<u64, bool>,
    /// Per actor, how many header replies came in (0: the next is the request's, then the
    /// response's).
    pub header_phase: Map<Seq<char>, u8>,
}

/// What the caller does after a packet: ask these actors for their details (request headers,
/// response headers, response content, in that order), then send these records to the UI.
pub struct Reaction {
    pub requests: Vec<String>,
    pub emitted: Vec<NetRecord>,
}

/// The devtools network client's state.
pub struct NetClient {
    id_by_actor: StringHashMap<u64>,
    actor_by_id: HashMap<u64, String>,
    records: HashMap<u64, NetRecord>,
    fetched: HashMap<u64, bool>,
    header_phase: StringHashMap<u8>,
}

pub open spec fn network_event() -> Seq<char> {
    seq!['n', 'e', 't', 'w', 'o', 'r', 'k', '-', 'e', 'v', 'e', 'n', 't']
}

pub open spec fn available_type() -> Seq<char> {
    seq!['r', 'e', 's', 'o', 'u', 'r', 'c', 'e', 's', '-', 'a', 'v', 'a', 'i', 'l', 'a', 'b', 'l', 'e', '-', 'a', 'r', 'r', 'a', 'y']
}

pub open spec fn updated_type() -> Seq<char> {
    seq!['r', 'e', 's', 'o', 'u', 'r', 'c', 'e', 's', '-', 'u', 'p', 'd', 'a', 't', 'e', 'd', '-', 'a', 'r', 'r', 'a', 'y']
}

pub open spec fn key(s: &str) -> Seq<char> {
    s@
}

/// An empty record for the event `id`.
pub open spec fn empty_record(id: u64) -> NetRecordView {
    NetRecordView {
        id,
        method: Seq::empty(),
        url: Seq::empty(),
        status: Seq::empty(),
        mime: Seq::empty(),
        req_headers: Seq::empty(),
        resp_headers: Seq::empty(),
        resp_body: Seq::empty(),
    }
}

/// The record for `id` (a new one when there is none), with its id set.
pub open spec fn record_of(st: ClientView, id: u64) -> NetRecordView {
    if st.records.contains_key(id) {
        NetRecordView { id, ..st.records[id] }
    } else {
        empty_record(id)
    }
}

/// The text of a response's `content.text`: a string as is, another value as its compact JSON text,
/// nothing as the empty text.
pub open spec fn value_text(v: Option<Json>) -> Seq<char> {
    match v {
        Some(Json::Str(s)) => s@,
        Some(other) => compact_text(other),
        None => Seq::empty(),
    }
}

/// The `(name, value)` pairs of a `headers` reply: entries without a string `name` are skipped; a
/// missing `value` is empty.
pub open spec fn parsed_headers(hs: Seq<Json>) -> Seq<(Seq<char>, Seq<char>)>
    decreases hs.len(),
{
    if hs.len() == 0 {
        Seq::empty()
    } else {
        let init = parsed_headers(hs.drop_last());
        let h = hs.last();
        match json_as_str(json_get(h, seq!['n', 'a', 'm', 'e'])) {
            Some(name) => init.push(
                (
                    name,
                    match json_as_str(json_get(h, seq!['v', 'a', 'l', 'u', 'e'])) {
                        Some(v) => v,
                        None => Seq::empty(),
                    },
                ),
            ),
            None => init,
        }
    }
}

/// The state after the request side of event `id` (item of `resources-available-array`).
pub open spec fn after_available(st: ClientView, id: u64, item: Json) -> ClientView {
    let r0 = record_of(st, id);
    let r1 = match json_as_str(json_get(item, seq!['m', 'e', 't', 'h', 'o', 'd'])) {
        Some(m) => NetRecordView { method: m, ..r0 },
        None => r0,
    };
    let r2 = match json_as_str(json_get(item, seq!['u', 'r', 'l'])) {
        Some(u) => NetRecordView { url: u, ..r1 },
        None => r1,
    };
    let st1 = ClientView { records: st.records.insert(id, r2), ..st };
    match json_as_str(json_get(item, seq!['a', 'c', 't', 'o', 'r'])) {
        Some(a) => ClientView {
            id_by_actor: st1.id_by_actor.insert(a, id),
            actor_by_id: st1.actor_by_id.insert(id, a),
            ..st1
        },
        None => st1,
    }
}

pub open spec fn resource_updates() -> Seq<char> {
    seq!['r', 'e', 's', 'o', 'u', 'r', 'c', 'e', 'U', 'p', 'd', 'a', 't', 'e', 's']
}

pub open spec fn headers_available() -> Seq<char> {
    seq!['r', 'e', 's', 'p', 'o', 'n', 's', 'e', 'H', 'e', 'a', 'd', 'e', 'r', 's', 'A', 'v', 'a', 'i', 'l', 'a', 'b', 'l', 'e']
}

/// The state after an update of event `id` (item of `resources-updated-array`), and the event's
/// actor when its response became available (a `status`, or `responseHeadersAvailable: true`) and
/// the actor is known. An item without `resourceUpdates` changes nothing.
pub open spec fn after_updated(st: ClientView, id: u64, item: Json) -> (ClientView, Option<Seq<char>>) {
    match json_get(item, resource_updates()) {
        None => (st, None),
        Some(u) => {
            let r0 = record_of(st, id);
            let status = json_as_str(json_get(u, seq!['s', 't', 'a', 't', 'u', 's']));
            let r1 = match status {
                Some(s) => NetRecordView { status: s, ..r0 },
                None => r0,
            };
            let ready = status is Some || json_as_bool(json_get(u, headers_available())) == Some(true);
            let st1 = ClientView { records: st.records.insert(id, r1), ..st };
            (st1, if ready && st.actor_by_id.contains_key(id) { Some(st.actor_by_id[id]) } else { None })
        },
    }
}

/// Whether the details of event `id` were already requested.
pub open spec fn was_fetched(st: ClientView, id: u64) -> bool {
    st.fetched.contains_key(id) && st.fetched[id]
}

/// One item of a resources array: the state after it, the actors whose details to request, and the
/// id it touched (`None` when it has no `resourceId`).
pub open spec fn after_item(st: ClientView, available: bool, item: Json) -> (ClientView, Seq<Seq<char>>, Option<u64>) {
    match json_as_u64(json_get(item, seq!['r', 'e', 's', 'o', 'u', 'r', 'c', 'e', 'I', 'd'])) {
        None => (st, Seq::empty(), None),
        Some(id) => if available {
            (after_available(st, id, item), Seq::empty(), Some(id))
        } else {
            let (st1, ready) = after_updated(st, id, item);
            match ready {
                Some(actor) => if !was_fetched(st1, id) {
                    (
                        ClientView {
                            fetched: st1.fetched.insert(id, true),
                            header_phase: st1.header_phase.insert(actor, 0),
                            ..st1
                        },
                        seq![actor],
                        Some(id),
                    )
                } else {
                    (st1, Seq::empty(), Some(id))
                },
                None => (st1, Seq::empty(), Some(id)),
            }
        },
    }
}

/// The items of one array, in order.
pub open spec fn after_items(st: ClientView, available: bool, items: Seq<Json>) -> (ClientView, Seq<Seq<char>>, Seq<u64>)
    decreases items.len(),
{
    if items.len() == 0 {
        (st, Seq::empty(), Seq::empty())
    } else {
        let (s1, r1, t1) = after_items(st, available, items.drop_last());
        let (s2, r2, t2) = after_item(s1, available, items.last());
        (
            s2,
            r1 + r2,
            match t2 {
                Some(id) => t1.push(id),
                None => t1,
            },
        )
    }
}

/// The items of an entry `["network-event", [items...]]`; other entries are skipped.
pub open spec fn entry_items(entry: Json) -> Option<Seq<Json>> {
    match json_as_array(Some(entry)) {
        Some(pair) => if pair.len() > 0 && json_as_str(Some(pair[0])) == Some(network_event()) && pair.len() > 1 {
            json_as_array(Some(pair[1]))
        } else {
            None
        },
        None => None,
    }
}

/// The entries of a resources array, in order.
pub open spec fn after_entries(st: ClientView, available: bool, entries: Seq<Json>) -> (ClientView, Seq<Seq<char>>, Seq<u64>)
    decreases entries.len(),
{
    if entries.len() == 0 {
        (st, Seq::empty(), Seq::empty())
    } else {
        let (s1, r1, t1) = after_entries(st, available, entries.drop_last());
        match entry_items(entries.last()) {
            Some(items) => {
                let (s2, r2, t2) = after_items(s1, available, items);
                (s2, r1 + r2, t1 + t2)
            },
            None => (s1, r1, t1),
        }
    }
}

/// A resources packet: the state after all its entries, the detail requests, and the ids touched
/// (in arrival order, possibly repeated).
pub open spec fn after_resources(st: ClientView, packet: Json, available: bool) -> (ClientView, Seq<Seq<char>>, Seq<u64>) {
    match json_as_array(json_get(packet, seq!['a', 'r', 'r', 'a', 'y'])) {
        Some(entries) => after_entries(st, available, entries),
        None => (st, Seq::empty(), Seq::empty()),
    }
}

/// The state after a reply of `actor` (event `id`): a `content` reply sets the MIME type (when a
/// string) and the body (its text, cut at the display cap); a `headers` reply fills the request
/// headers the first time and the response headers after that.
pub open spec fn after_reply(st: ClientView, actor: Seq<char>, id: u64, packet: Json) -> ClientView {
    let r0 = record_of(st, id);
    match json_get(packet, seq!['c', 'o', 'n', 't', 'e', 'n', 't']) {
        Some(c) => {
            let r1 = match json_as_str(json_get(c, seq!['m', 'i', 'm', 'e', 'T', 'y', 'p', 'e'])) {
                Some(m) => NetRecordView { mime: m, ..r0 },
                None => r0,
            };
            let r2 = NetRecordView { resp_body: truncated_body(value_text(json_get(c, seq!['t', 'e', 'x', 't']))), ..r1 };
            ClientView { records: st.records.insert(id, r2), ..st }
        },
        None => match json_as_array(json_get(packet, seq!['h', 'e', 'a', 'd', 'e', 'r', 's'])) {
            Some(hs) => {
                let parsed = parsed_headers(hs);
                let phase = if st.header_phase.contains_key(actor) { st.header_phase[actor] } else { 0 };
                if phase == 0 {
                    ClientView {
                        records: st.records.insert(id, NetRecordView { req_headers: parsed, ..r0 }),
                        header_phase: st.header_phase.insert(actor, 1),
                        ..st
                    }
                } else {
                    ClientView {
                        records: st.records.insert(id, NetRecordView { resp_headers: parsed, ..r0 }),
                        ..st
                    }
                }
            },
            None => ClientView { records: st.records.insert(id, r0), ..st },
        },
    }
}

/// The records of `ids` that exist, in the order of `ids`.
pub open spec fn records_for(records: Map<u64, NetRecordView>, ids: Seq<u64>) -> Seq<NetRecordView>
    decreases ids.len(),
{
    if ids.len() == 0 {
        Seq::empty()
    } else {
        let init = records_for(records, ids.drop_last());
        if records.contains_key(ids.last()) {
            init.push(records[ids.last()])
        } else {
            init
        }
    }
}

/// Whether `ids` is strictly increasing.
pub open spec fn strictly_increasing(ids: Seq<u64>) -> bool {
    forall|i: int, j: int| 0 <= i < j < ids.len() ==> ids[i] < ids[j]
}

/// Whether `sorted` holds the ids of `touched`, each once, in increasing order.
pub open spec fn sorted_ids_of(sorted: Seq<u64>, touched: Seq<u64>) -> bool {
    &&& strictly_increasing(sorted)
    &&& sorted.to_set() == touched.to_set()
}

/// The packet's type (empty when it has none).
pub open spec fn packet_type(packet: Json) -> Seq<char> {
    match json_as_str(json_get(packet, seq!['t', 'y', 'p', 'e'])) {
        Some(t) => t,
        None => Seq::empty(),
    }
}

/// The actor a reply comes from, when it is a known network-event actor.
pub open spec fn reply_actor(st: ClientView, packet: Json) -> Option<Seq<char>> {
    match json_as_str(json_get(packet, seq!['f', 'r', 'o', 'm'])) {
        Some(f) => if st.id_by_actor.contains_key(f) { Some(f) } else { None },
        None => None,
    }
}

pub open spec fn record_views(s: Seq<NetRecord>) -> Seq<NetRecordView> {
    s.map_values(|r: NetRecord| r@)
}

pub open spec fn strings(s: Seq<String>) -> Seq<Seq<char>> {
    s.map_values(|x: String| x@)
}

impl NetClient {
    /// The client's state.
    pub closed spec fn state(&self) -> ClientView {
        ClientView {
            id_by_actor: self.id_by_actor@,
            actor_by_id: self.actor_by_id@.map_values(|s: String| s@),
            records: self.records@.map_values(|r: NetRecord| r@),
            fetched: self.fetched@,
            header_phase: self.header_phase@,
        }
    }

    /// A client that has seen nothing.
    pub fn new() -> (c: NetClient)
        ensures
            c.state().id_by_actor == Map::<Seq<char>, u64>::empty(),
            c.state().actor_by_id == Map::<u64, Seq<char>>::empty(),
            c.state().records == Map::<u64, NetRecordView>::empty(),
            c.state().fetched == Map::<u64, bool>::empty(),
            c.state().header_phase == Map::<Seq<char>, u8>::empty(),
    {
        let c = NetClient {
            id_by_actor: StringHashMap::new(),
            actor_by_id: HashMap::new(),
            records: HashMap::new(),
            fetched: HashMap::new(),
            header_phase: StringHashMap::new(),
        };
        assert(c.state().actor_by_id =~= Map::<u64, Seq<char>>::empty());
        assert(c.state().records =~= Map::<u64, NetRecordView>::empty());
        c
    }

    /// Takes the record for `id` out of the map (a new one when there is none), with its id set.
    fn take_record(&mut self, id: u64) -> (r: NetRecord)
        ensures
            r@ == record_of(old(self).state(), id),
            final(self).state() == (ClientView { records: old(self).state().records.remove(id), ..old(self).state() }),
    {
        let ghost before = self.state();
        let r = match self.records.remove(&id) {
            Some(mut r) => {
                r.id = id;
                r
            },
            None => NetRecord::new(id),
        };
        assert(self.state().records =~= before.records.remove(id));
        assert(self.state().actor_by_id =~= before.actor_by_id);
        r
    }

    /// Puts a record back under `id`.
    fn put_record(&mut self, id: u64, r: NetRecord)
        ensures
            final(self).state() == (ClientView { records: old(self).state().records.insert(id, r@), ..old(self).state() }),
    {
        let ghost before = self.state();
        let ghost rv = r@;
        self.records.insert(id, r);
        assert(self.state().records =~= before.records.insert(id, rv));
        assert(self.state().actor_by_id =~= before.actor_by_id);
    }

    fn ingest_available(&mut self, id: u64, item: &Json)
        ensures
            final(self).state() == after_available(old(self).state(), id, *item),
    {
        let ghost st = self.state();
        let mut rec = self.take_record(id);
        proof {
            reveal_strlit("method");
            reveal_strlit("url");
            reveal_strlit("actor");
        }
        assert("method"@ =~= seq!['m', 'e', 't', 'h', 'o', 'd']);
        assert("url"@ =~= seq!['u', 'r', 'l']);
        assert("actor"@ =~= seq!['a', 'c', 't', 'o', 'r']);
        match as_str(get(item, "method")) {
            Some(m) => {
                rec.method = m.clone();
            },
            None => {},
        }
        match as_str(get(item, "url")) {
            Some(u) => {
                rec.url = u.clone();
            },
            None => {},
        }
        self.put_record(id, rec);
        match as_str(get(item, "actor")) {
            Some(a) => {
                let ghost before = self.state();
                self.id_by_actor.insert(a.clone(), id);
                self.actor_by_id.insert(id, a.clone());
                assert(self.state().actor_by_id =~= before.actor_by_id.insert(id, a@));
                assert(self.state().records =~= before.records);
            },
            None => {},
        }
        assert(self.state().records =~= after_available(st, id, *item).records);
    }

    fn ingest_updated(&mut self, id: u64, item: &Json) -> (ready: Option<String>)
        ensures
            final(self).state() == after_updated(old(self).state(), id, *item).0,
            match ready {
                Some(a) => after_updated(old(self).state(), id, *item).1 == Some(a@),
                None => after_updated(old(self).state(), id, *item).1 is None,
            },
    {
        proof {
            reveal_strlit("resourceUpdates");
            reveal_strlit("status");
            reveal_strlit("responseHeadersAvailable");
        }
        assert("resourceUpdates"@ =~= resource_updates());
        assert("status"@ =~= seq!['s', 't', 'a', 't', 'u', 's']);
        assert("responseHeadersAvailable"@ =~= headers_available());
        let updates = match get(item, "resourceUpdates") {
            Some(u) => u,
            None => {
                return None;
            },
        };
        let ghost st = self.state();
        let mut rec = self.take_record(id);
        let mut response_ready = false;
        match as_str(get(updates, "status")) {
            Some(s) => {
                rec.status = s.clone();
                response_ready = true;
            },
            None => {},
        }
        match as_bool(get(updates, "responseHeadersAvailable")) {
            Some(true) => {
                response_ready = true;
            },
            _ => {},
        }
        self.put_record(id, rec);
        assert(self.state().records =~= after_updated(st, id, *item).0.records);
        if response_ready {
            match self.actor_by_id.get(&id) {
                Some(a) => Some(a.clone()),
                None => None,
            }
        } else {
            None
        }
    }

    fn ingest_item(&mut self, available: bool, item: &Json, requests: &mut Vec<String>) -> (touched: Option<u64>)
        ensures
            final(self).state() == after_item(old(self).state(), available, *item).0,
            strings(final(requests)@) == strings(old(requests)@) + after_item(old(self).state(), available, *item).1,
            touched == after_item(old(self).state(), available, *item).2,
    {
        proof {
            reveal_strlit("resourceId");
        }
        assert("resourceId"@ =~= seq!['r', 'e', 's', 'o', 'u', 'r', 'c', 'e', 'I', 'd']);
        let id = match as_u64(get(item, "resourceId")) {
            Some(id) => id,
            None => {
                assert(strings(requests@) =~= strings(requests@) + Seq::<Seq<char>>::empty());
                return None;
            },
        };
        if available {
            self.ingest_available(id, item);
            assert(strings(requests@) =~= strings(requests@) + Seq::<Seq<char>>::empty());
            return Some(id);
        }
        let ghost before_requests = strings(requests@);
        match self.ingest_updated(id, item) {
            Some(actor) => {
                let already = match self.fetched.get(&id) {
                    Some(f) => *f,
                    None => false,
                };
                if !already {
                    let ghost st1 = self.state();
                    self.fetched.insert(id, true);
                    self.header_phase.insert(actor.clone(), 0);
                    let ghost a = actor@;
                    requests.push(actor);
                    assert(strings(requests@) =~= before_requests + seq![a]);
                } else {
                    assert(strings(requests@) =~= before_requests + Seq::<Seq<char>>::empty());
                }
            },
            None => {
                assert(strings(requests@) =~= before_requests + Seq::<Seq<char>>::empty());
            },
        }
        Some(id)
    }

    fn ingest_items(&mut self, available: bool, items: &Vec<Json>, requests: &mut Vec<String>, touched: &mut Vec<u64>)
        ensures
            final(self).state() == after_items(old(self).state(), available, items@).0,
            strings(final(requests)@) == strings(old(requests)@) + after_items(old(self).state(), available, items@).1,
            final(touched)@ == old(touched)@ + after_items(old(self).state(), available, items@).2,
    {
        let ghost st0 = self.state();
        let ghost r0 = strings(requests@);
        let ghost t0 = touched@;
        let mut i: usize = 0;
        while i < items.len()
            invariant
                i <= items@.len(),
                self.state() == after_items(st0, available, items@.take(i as int)).0,
                strings(requests@) == r0 + after_items(st0, available, items@.take(i as int)).1,
                touched@ == t0 + after_items(st0, available, items@.take(i as int)).2,
            decreases items@.len() - i,
        {
            proof {
                assert(items@.take(i as int + 1).drop_last() =~= items@.take(i as int));
            }
            let ghost before_t = touched@;
            match self.ingest_item(available, &items[i], requests) {
                Some(id) => {
                    touched.push(id);
                },
                None => {},
            }
            proof {
                let (s1, rr1, t1) = after_items(st0, available, items@.take(i as int));
                assert(r0 + rr1 + after_item(s1, available, items@[i as int]).1 =~= r0 + (rr1 + after_item(s1, available, items@[i as int]).1));
                match after_item(s1, available, items@[i as int]).2 {
                    Some(id) => {
                        assert(touched@ =~= t0 + t1.push(id));
                    },
                    None => {},
                }
            }
            i = i + 1;
        }
        assert(items@.take(items@.len() as int) =~= items@);
    }

    fn ingest_resources(&mut self, packet: &Json, available: bool, requests: &mut Vec<String>) -> (touched: Vec<u64>)
        requires
            old(requests)@.len() == 0,
        ensures
            final(self).state() == after_resources(old(self).state(), *packet, available).0,
            strings(final(requests)@) == after_resources(old(self).state(), *packet, available).1,
            touched@ == after_resources(old(self).state(), *packet, available).2,
    {
        proof {
            reveal_strlit("array");
            reveal_strlit("network-event");
        }
        assert("array"@ =~= seq!['a', 'r', 'r', 'a', 'y']);
        assert("network-event"@ =~= network_event());
        let mut touched: Vec<u64> = Vec::new();
        assert(strings(requests@) =~= Seq::<Seq<char>>::empty());
        let entries = match as_array(get(packet, "array")) {
            Some(e) => e,
            None => {
                return touched;
            },
        };
        let ghost st0 = self.state();
        let mut i: usize = 0;
        while i < entries.len()
            invariant
                i <= entries@.len(),
                self.state() == after_entries(st0, available, entries@.take(i as int)).0,
                strings(requests@) == after_entries(st0, available, entries@.take(i as int)).1,
                touched@ == after_entries(st0, available, entries@.take(i as int)).2,
                "network-event"@ == network_event(),
            decreases entries@.len() - i,
        {
            proof {
                assert(entries@.take(i as int + 1).drop_last() =~= entries@.take(i as int));
            }
            let entry = &entries[i];
            let pair = match entry {
                Json::Array(p) => p,
                _ => {
                    i = i + 1;
                    continue;
                },
            };
            let is_network = pair.len() > 0 && match &pair[0] {
                Json::Str(s) => same_text(s.as_str(), "network-event"),
                _ => false,
            };
            if !is_network || pair.len() <= 1 {
                i = i + 1;
                continue;
            }
            let items = match &pair[1] {
                Json::Array(items) => items,
                _ => {
                    i = i + 1;
                    continue;
                },
            };
            self.ingest_items(available, items, requests, &mut touched);
            i = i + 1;
        }
        assert(entries@.take(entries@.len() as int) =~= entries@);
        touched
    }

    fn ingest_reply(&mut self, actor: &str, id: u64, packet: &Json)
        ensures
            final(self).state() == after_reply(old(self).state(), actor@, id, *packet),
    {
        proof {
            reveal_strlit("content");
            reveal_strlit("mimeType");
            reveal_strlit("text");
            reveal_strlit("headers");
        }
        assert("content"@ =~= seq!['c', 'o', 'n', 't', 'e', 'n', 't']);
        assert("mimeType"@ =~= seq!['m', 'i', 'm', 'e', 'T', 'y', 'p', 'e']);
        assert("text"@ =~= seq!['t', 'e', 'x', 't']);
        assert("headers"@ =~= seq!['h', 'e', 'a', 'd', 'e', 'r', 's']);
        let ghost st = self.state();
        let mut rec = self.take_record(id);
        match get(packet, "content") {
            Some(content) => {
                match as_str(get(content, "mimeType")) {
                    Some(m) => {
                        rec.mime = m.clone();
                    },
                    None => {},
                }
                let body = value_to_text(get(content, "text"));
                rec.resp_body = truncate(body.as_str());
                self.put_record(id, rec);
            },
            None => match as_array(get(packet, "headers")) {
                Some(headers) => {
                    let parsed = parse_headers(headers);
                    let phase: u8 = match self.header_phase.get(actor) {
                        Some(p) => *p,
                        None => 0,
                    };
                    if phase == 0 {
                        rec.req_headers = parsed;
                        self.put_record(id, rec);
                        let ghost before = self.state();
                        self.header_phase.insert(actor.to_owned(), 1);
                        assert(self.state().records =~= before.records);
                        assert(self.state().actor_by_id =~= before.actor_by_id);
                    } else {
                        rec.resp_headers = parsed;
                        self.put_record(id, rec);
                    }
                },
                None => {
                    self.put_record(id, rec);
                },
            },
        }
        assert(self.state() =~= after_reply(st, actor@, id, *packet)) by {
            assert(self.state().records =~= after_reply(st, actor@, id, *packet).records);
        }
    }

    /// Handles one packet from the devtools server: a resources packet updates the touched events
    /// (and asks for the details of events whose response became available, once each); a reply
    /// from a known event actor fills in that event. Emits the touched records, in increasing id
    /// order for a resources packet.
    pub fn handle(&mut self, packet: &Json) -> (reaction: Reaction)
        ensures
            final(self).state() == handled(old(self).state(), *packet),
            strings(reaction.requests@) == handled_requests(old(self).state(), *packet),
            ({
                let st = old(self).state();
                let t = packet_type(*packet);
                if t == available_type() || t == updated_type() {
                    let (s1, reqs, touched) = after_resources(st, *packet, t == available_type());
                    &&& final(self).state() == s1
                    &&& strings(reaction.requests@) == reqs
                    &&& exists|ids: Seq<u64>| #[trigger] sorted_ids_of(ids, touched) && record_views(reaction.emitted@) == records_for(s1.records, ids)
                } else {
                    &&& reaction.requests@.len() == 0
                    &&& match reply_actor(st, *packet) {
                        Some(actor) => {
                            let id = st.id_by_actor[actor];
                            let s1 = after_reply(st, actor, id, *packet);
                            &&& final(self).state() == s1
                            &&& record_views(reaction.emitted@) == seq![s1.records[id]]
                        },
                        None => final(self).state() == st && reaction.emitted@.len() == 0,
                    }
                }
            }),
    {
        proof {
            reveal_strlit("type");
            reveal_strlit("from");
            reveal_strlit("resources-available-array");
            reveal_strlit("resources-updated-array");
        }
        assert("type"@ =~= seq!['t', 'y', 'p', 'e']);
        assert("from"@ =~= seq!['f', 'r', 'o', 'm']);
        assert("resources-available-array"@ =~= available_type());
        assert("resources-updated-array"@ =~= updated_type());
        let mut requests: Vec<String> = Vec::new();
        let mut emitted: Vec<NetRecord> = Vec::new();
        let empty = String::new();
        let typ: &String = match as_str(get(packet, "type")) {
            Some(t) => t,
            None => &empty,
        };
        let is_available = same_text(typ.as_str(), "resources-available-array");
        let is_updated = same_text(typ.as_str(), "resources-updated-array");
        if is_available || is_updated {
            let touched = self.ingest_resources(packet, is_available, &mut requests);
            let ids = sorted_unique(&touched);
            let mut i: usize = 0;
            while i < ids.len()
                invariant
                    i <= ids@.len(),
                    record_views(emitted@) == records_for(self.state().records, ids@.take(i as int)),
                decreases ids@.len() - i,
            {
                proof {
                    assert(ids@.take(i as int + 1).drop_last() =~= ids@.take(i as int));
                }
                let ghost before = record_views(emitted@);
                match self.records.get(&ids[i]) {
                    Some(rec) => {
                        emitted.push(rec.duplicate());
                        assert(record_views(emitted@) =~= before.push(self.state().records[ids@[i as int]]));
                    },
                    None => {},
                }
                i = i + 1;
            }
            assert(ids@.take(ids@.len() as int) =~= ids@);
            return Reaction { requests, emitted };
        }
        assert(strings(requests@) =~= Seq::<Seq<char>>::empty());
        let from = match as_str(get(packet, "from")) {
            Some(f) => f,
            None => {
                return Reaction { requests, emitted };
            },
        };
        let id = match self.id_by_actor.get(from.as_str()) {
            Some(id) => *id,
            None => {
                return Reaction { requests, emitted };
            },
        };
        self.ingest_reply(from.as_str(), id, packet);
        proof {
            lemma_reply_keeps_record(old(self).state(), from@, id, *packet);
        }
        match self.records.get(&id) {
            Some(rec) => {
                emitted.push(rec.duplicate());
            },
            None => {},
        }
        assert(record_views(emitted@) =~= seq![self.state().records[id]]);
        Reaction { requests, emitted }
    }
}

proof fn lemma_reply_keeps_record(st: ClientView, actor: Seq<char>, id: u64, packet: Json)
    ensures
        after_reply(st, actor, id, packet).records.contains_key(id),
{
}

/// The resource id whose details one item asks for: the id of an update that made the response
/// available, when the details of that event were not asked for yet (see [`after_item`]).
pub open spec fn item_requested_ids(st: ClientView, available: bool, item: Json) -> Seq<u64> {
    match json_as_u64(json_get(item, seq!['r', 'e', 's', 'o', 'u', 'r', 'c', 'e', 'I', 'd'])) {
        None => Seq::empty(),
        Some(id) => if available {
            Seq::empty()
        } else {
            let (st1, ready) = after_updated(st, id, item);
            if ready is Some && !was_fetched(st1, id) {
                seq![id]
            } else {
                Seq::empty()
            }
        },
    }
}

/// The resource ids whose details the items of one array ask for, in order.
pub open spec fn items_requested_ids(st: ClientView, available: bool, items: Seq<Json>) -> Seq<u64>
    decreases items.len(),
{
    if items.len() == 0 {
        Seq::empty()
    } else {
        let s1 = after_items(st, available, items.drop_last()).0;
        items_requested_ids(st, available, items.drop_last()) + item_requested_ids(s1, available, items.last())
    }
}

/// The resource ids whose details the entries of a resources array ask for, in order.
pub open spec fn entries_requested_ids(st: ClientView, available: bool, entries: Seq<Json>) -> Seq<u64>
    decreases entries.len(),
{
    if entries.len() == 0 {
        Seq::empty()
    } else {
        let s1 = after_entries(st, available, entries.drop_last()).0;
        let init = entries_requested_ids(st, available, entries.drop_last());
        match entry_items(entries.last()) {
            Some(items) => init + items_requested_ids(s1, available, items),
            None => init,
        }
    }
}

/// The resource ids whose details a packet asks for, in the order of the requests.
pub open spec fn requested_ids(st: ClientView, packet: Json) -> Seq<u64> {
    let t = packet_type(packet);
    if t == available_type() || t == updated_type() {
        match json_as_array(json_get(packet, seq!['a', 'r', 'r', 'a', 'y'])) {
            Some(entries) => entries_requested_ids(st, t == available_type(), entries),
            None => Seq::empty(),
        }
    } else {
        Seq::empty()
    }
}

/// The client's state after handling `packet` (see [`NetClient::handle`]).
pub open spec fn handled(st: ClientView, packet: Json) -> ClientView {
    let t = packet_type(packet);
    if t == available_type() || t == updated_type() {
        after_resources(st, packet, t == available_type()).0
    } else {
        match reply_actor(st, packet) {
            Some(actor) => after_reply(st, actor, st.id_by_actor[actor], packet),
            None => st,
        }
    }
}

/// The actors whose details handling `packet` asks for (see [`NetClient::handle`]).
pub open spec fn handled_requests(st: ClientView, packet: Json) -> Seq<Seq<char>> {
    let t = packet_type(packet);
    if t == available_type() || t == updated_type() {
        after_resources(st, packet, t == available_type()).1
    } else {
        Seq::empty()
    }
}

/// The state after handling `packets` in order.
pub open spec fn run(st: ClientView, packets: Seq<Json>) -> ClientView
    decreases packets.len(),
{
    if packets.len() == 0 {
        st
    } else {
        handled(run(st, packets.drop_last()), packets.last())
    }
}

/// The resource ids whose details are asked for while handling `packets` in order.
pub open spec fn run_requested_ids(st: ClientView, packets: Seq<Json>) -> Seq<u64>
    decreases packets.len(),
{
    if packets.len() == 0 {
        Seq::empty()
    } else {
        let before = packets.drop_last();
        run_requested_ids(st, before) + requested_ids(run(st, before), packets.last())
    }
}

/// From `st` to `st2` the details of the events `ids` were asked for: none of them had been asked
/// for in `st`, each is marked as asked for in `st2`, no id comes twice, and no mark is lost.
pub open spec fn asks_fresh(st: ClientView, st2: ClientView, ids: Seq<u64>) -> bool {
    &&& forall|id: u64| was_fetched(st, id) ==> #[trigger] was_fetched(st2, id)
    &&& forall|k: int| 0 <= k < ids.len() ==> !was_fetched(st, #[trigger] ids[k]) && was_fetched(st2, ids[k])
    &&& ids.no_duplicates()
}

/// The requests `reqs` name the actors of the events `ids`, one for one.
pub open spec fn names_actors(st: ClientView, reqs: Seq<Seq<char>>, ids: Seq<u64>) -> bool {
    &&& reqs.len() == ids.len()
    &&& forall|k: int| 0 <= k < ids.len() ==> st.actor_by_id.contains_key(#[trigger] ids[k]) && reqs[k]
        == st.actor_by_id[ids[k]]
}

proof fn lemma_asks_fresh_compose(st: ClientView, s1: ClientView, s2: ClientView, a: Seq<u64>, b: Seq<u64>)
    requires
        asks_fresh(st, s1, a),
        asks_fresh(s1, s2, b),
    ensures
        asks_fresh(st, s2, a + b),
{
    let ab = a + b;
    assert forall|k: int| 0 <= k < ab.len() implies !was_fetched(st, #[trigger] ab[k]) && was_fetched(s2, ab[k]) by {
        if k < a.len() {
            assert(ab[k] == a[k]);
            assert(was_fetched(s1, a[k]));
        } else {
            assert(ab[k] == b[k - a.len()]);
            if was_fetched(st, b[k - a.len()]) {
                assert(was_fetched(s1, b[k - a.len()]));
            }
        }
    }
    assert forall|i: int, j: int| 0 <= i < ab.len() && 0 <= j < ab.len() && i != j implies ab[i] != ab[j] by {
        if i < a.len() && j < a.len() {
            assert(ab[i] == a[i] && ab[j] == a[j]);
        } else if i >= a.len() && j >= a.len() {
            assert(ab[i] == b[i - a.len()] && ab[j] == b[j - a.len()]);
        } else if i < a.len() {
            assert(ab[i] == a[i] && ab[j] == b[j - a.len()]);
            assert(was_fetched(s1, a[i]));
            assert(!was_fetched(s1, b[j - a.len()]));
        } else {
            assert(ab[j] == a[j] && ab[i] == b[i - a.len()]);
            assert(was_fetched(s1, a[j]));
            assert(!was_fetched(s1, b[i - a.len()]));
        }
    }
}

proof fn lemma_item_asks_fresh(st: ClientView, available: bool, item: Json)
    ensures
        asks_fresh(st, after_item(st, available, item).0, item_requested_ids(st, available, item)),
        names_actors(st, after_item(st, available, item).1, item_requested_ids(st, available, item)),
        !available ==> after_item(st, available, item).0.actor_by_id == st.actor_by_id,
{
    let ids = item_requested_ids(st, available, item);
    let s2 = after_item(st, available, item).0;
    match json_as_u64(json_get(item, seq!['r', 'e', 's', 'o', 'u', 'r', 'c', 'e', 'I', 'd'])) {
        None => {},
        Some(id) => {
            if available {
            } else {
                let (st1, ready) = after_updated(st, id, item);
                assert(st1.fetched == st.fetched);
                assert(st1.actor_by_id == st.actor_by_id);
                if ready is Some && !was_fetched(st1, id) {
                    assert(ids[0] == id);
                    assert(was_fetched(s2, id));
                }
            }
        },
    }
}

proof fn lemma_items_asks_fresh(st: ClientView, available: bool, items: Seq<Json>)
    ensures
        asks_fresh(st, after_items(st, available, items).0, items_requested_ids(st, available, items)),
        names_actors(st, after_items(st, available, items).1, items_requested_ids(st, available, items)),
        !available ==> after_items(st, available, items).0.actor_by_id == st.actor_by_id,
    decreases items.len(),
{
    if items.len() == 0 {
        assert(items_requested_ids(st, available, items) =~= Seq::<u64>::empty());
    } else {
        let init = items.drop_last();
        lemma_items_asks_fresh(st, available, init);
        let (s1, r1, t1) = after_items(st, available, init);
        lemma_item_asks_fresh(s1, available, items.last());
        let a = items_requested_ids(st, available, init);
        let b = item_requested_ids(s1, available, items.last());
        let s2 = after_item(s1, available, items.last()).0;
        let r2 = after_item(s1, available, items.last()).1;
        lemma_asks_fresh_compose(st, s1, s2, a, b);
        if available {
            assert(b.len() == 0);
            assert(a.len() == 0) by {
                lemma_available_asks_nothing(st, init);
            }
            assert(r1 + r2 =~= Seq::<Seq<char>>::empty());
            assert(a + b =~= Seq::<u64>::empty());
        } else {
            let ab = a + b;
            let rr = r1 + r2;
            assert forall|k: int| 0 <= k < ab.len() implies st.actor_by_id.contains_key(#[trigger] ab[k])
                && rr[k] == st.actor_by_id[ab[k]] by {
                if k < a.len() {
                    assert(ab[k] == a[k] && rr[k] == r1[k]);
                } else {
                    assert(ab[k] == b[k - a.len()] && rr[k] == r2[k - a.len()]);
                }
            }
        }
    }
}

proof fn lemma_available_asks_nothing(st: ClientView, items: Seq<Json>)
    ensures
        items_requested_ids(st, true, items).len() == 0,
        after_items(st, true, items).1.len() == 0,
    decreases items.len(),
{
    if items.len() > 0 {
        lemma_available_asks_nothing(st, items.drop_last());
    }
}

proof fn lemma_entries_asks_fresh(st: ClientView, available: bool, entries: Seq<Json>)
    ensures
        asks_fresh(st, after_entries(st, available, entries).0, entries_requested_ids(st, available, entries)),
        names_actors(st, after_entries(st, available, entries).1, entries_requested_ids(st, available, entries)),
        !available ==> after_entries(st, available, entries).0.actor_by_id == st.actor_by_id,
    decreases entries.len(),
{
    if entries.len() == 0 {
        assert(entries_requested_ids(st, available, entries) =~= Seq::<u64>::empty());
    } else {
        let init = entries.drop_last();
        lemma_entries_asks_fresh(st, available, init);
        let (s1, r1, t1) = after_entries(st, available, init);
        let a = entries_requested_ids(st, available, init);
        match entry_items(entries.last()) {
            Some(items) => {
                lemma_items_asks_fresh(s1, available, items);
                let b = items_requested_ids(s1, available, items);
                let s2 = after_items(s1, available, items).0;
                let r2 = after_items(s1, available, items).1;
                lemma_asks_fresh_compose(st, s1, s2, a, b);
                let ab = a + b;
                let rr = r1 + r2;
                if available {
                    lemma_available_asks_nothing(s1, items);
                    lemma_available_entries_ask_nothing(st, init);
                    assert(ab =~= Seq::<u64>::empty());
                    assert(rr =~= Seq::<Seq<char>>::empty());
                } else {
                    assert forall|k: int| 0 <= k < ab.len() implies st.actor_by_id.contains_key(#[trigger] ab[k])
                        && rr[k] == st.actor_by_id[ab[k]] by {
                        if k < a.len() {
                            assert(ab[k] == a[k] && rr[k] == r1[k]);
                        } else {
                            assert(ab[k] == b[k - a.len()] && rr[k] == r2[k - a.len()]);
                        }
                    }
                }
            },
            None => {},
        }
    }
}

proof fn lemma_available_entries_ask_nothing(st: ClientView, entries: Seq<Json>)
    ensures
        entries_requested_ids(st, true, entries).len() == 0,
        after_entries(st, true, entries).1.len() == 0,
    decreases entries.len(),
{
    if entries.len() > 0 {
        let init = entries.drop_last();
        lemma_available_entries_ask_nothing(st, init);
        match entry_items(entries.last()) {
            Some(items) => {
                lemma_available_asks_nothing(after_entries(st, true, init).0, items);
            },
            None => {},
        }
    }
}

/// One packet asks for the details of events whose details were not asked for before, each once,
/// and marks them as asked for; the requests name those events' actors, one for one.
pub proof fn packet_asks_details_once(st: ClientView, packet: Json)
    ensures
        asks_fresh(st, handled(st, packet), requested_ids(st, packet)),
        names_actors(st, handled_requests(st, packet), requested_ids(st, packet)),
{
    let t = packet_type(packet);
    if t == available_type() || t == updated_type() {
        match json_as_array(json_get(packet, seq!['a', 'r', 'r', 'a', 'y'])) {
            Some(entries) => {
                lemma_entries_asks_fresh(st, t == available_type(), entries);
            },
            None => {},
        }
    } else {
        match reply_actor(st, packet) {
            Some(actor) => {
                assert(handled(st, packet).fetched == st.fetched);
            },
            None => {},
        }
    }
}

/// Over any sequence of packets, the details of one event are asked for at most once, and never
/// for an event whose details were asked for before the sequence.
pub proof fn details_requested_at_most_once(st: ClientView, packets: Seq<Json>)
    ensures
        asks_fresh(st, run(st, packets), run_requested_ids(st, packets)),
    decreases packets.len(),
{
    if packets.len() == 0 {
        assert(run_requested_ids(st, packets) =~= Seq::<u64>::empty());
    } else {
        let before = packets.drop_last();
        details_requested_at_most_once(st, before);
        packet_asks_details_once(run(st, before), packets.last());
        lemma_asks_fresh_compose(
            st,
            run(st, before),
            run(st, packets),
            run_requested_ids(st, before),
            requested_ids(run(st, before), packets.last()),
        );
    }
}

/// A response that arrives is followed by its details, whatever its status: when an update of an
/// event whose actor is known and whose details were not asked for yet carries a `status` (a
/// string; `404 Not Found` as much as `200 OK`), or says `responseHeadersAvailable: true`,
/// handling the packet asks exactly that actor for the details, records the status, and marks
/// the details as asked for.
pub proof fn arrived_response_requests_details(
    st: ClientView,
    packet: Json,
    entry: Json,
    pair: Seq<Json>,
    item: Json,
    id: u64,
    updates: Json,
)
    requires
        packet_type(packet) == updated_type(),
        json_as_array(json_get(packet, seq!['a', 'r', 'r', 'a', 'y'])) == Some(seq![entry]),
        json_as_array(Some(entry)) == Some(pair),
        pair.len() >= 2,
        json_as_str(Some(pair[0])) == Some(network_event()),
        json_as_array(Some(pair[1])) == Some(seq![item]),
        json_as_u64(json_get(item, seq!['r', 'e', 's', 'o', 'u', 'r', 'c', 'e', 'I', 'd'])) == Some(id),
        json_get(item, resource_updates()) == Some(updates),
        json_as_str(json_get(updates, seq!['s', 't', 'a', 't', 'u', 's'])) is Some
            || json_as_bool(json_get(updates, headers_available())) == Some(true),
        st.actor_by_id.contains_key(id),
        !was_fetched(st, id),
    ensures
        handled_requests(st, packet) == seq![st.actor_by_id[id]],
        was_fetched(handled(st, packet), id),
        handled(st, packet).records.contains_key(id),
        json_as_str(json_get(updates, seq!['s', 't', 'a', 't', 'u', 's'])) matches Some(status)
            ==> handled(st, packet).records[id].status == status,
{
    assert(seq![entry].drop_last() =~= Seq::<Json>::empty());
    assert(seq![item].drop_last() =~= Seq::<Json>::empty());
    assert(packet_type(packet) != available_type()) by {
        assert(updated_type()[10] != available_type()[10]);
    }
    assert(entry_items(entry) == Some(seq![item]));
    let (s1, ready) = after_updated(st, id, item);
    assert(ready == Some(st.actor_by_id[id]));
    let none_j = Seq::<Json>::empty();
    assert(seq![item].last() == item);
    assert(seq![entry].last() == entry);
    let e0 = after_items(st, false, none_j);
    assert(e0.0 == st && e0.1 =~= Seq::<Seq<char>>::empty());
    let i1 = after_items(st, false, seq![item]);
    let it = after_item(st, false, item);
    assert(i1.0 == it.0);
    assert(i1.1 =~= it.1);
    let n0 = after_entries(st, false, none_j);
    assert(n0.0 == st && n0.1 =~= Seq::<Seq<char>>::empty());
    let n1 = after_entries(st, false, seq![entry]);
    assert(n1.0 == i1.0);
    assert(n1.1 =~= i1.1);
}

/// Two `headers` replies of an event's actor, right after its details were asked for, fill the
/// request headers with the first and the response headers with the second; a `content` reply
/// sets the cut body and leaves both header lists as they were.
pub proof fn header_replies_fill_request_then_response(
    st: ClientView,
    actor: Seq<char>,
    id: u64,
    p1: Json,
    p2: Json,
    c: Json,
)
    requires
        st.header_phase.contains_key(actor) ==> st.header_phase[actor] == 0,
        json_get(p1, seq!['c', 'o', 'n', 't', 'e', 'n', 't']) is None,
        json_get(p2, seq!['c', 'o', 'n', 't', 'e', 'n', 't']) is None,
        json_as_array(json_get(p1, seq!['h', 'e', 'a', 'd', 'e', 'r', 's'])) is Some,
        json_as_array(json_get(p2, seq!['h', 'e', 'a', 'd', 'e', 'r', 's'])) is Some,
        json_get(c, seq!['c', 'o', 'n', 't', 'e', 'n', 't']) is Some,
    ensures
        ({
            let s2 = after_reply(after_reply(st, actor, id, p1), actor, id, p2);
            &&& s2.records[id].req_headers == parsed_headers(
                json_as_array(json_get(p1, seq!['h', 'e', 'a', 'd', 'e', 'r', 's']))->0,
            )
            &&& s2.records[id].resp_headers == parsed_headers(
                json_as_array(json_get(p2, seq!['h', 'e', 'a', 'd', 'e', 'r', 's']))->0,
            )
        }),
        ({
            let sc = after_reply(st, actor, id, c);
            let content = json_get(c, seq!['c', 'o', 'n', 't', 'e', 'n', 't'])->0;
            &&& sc.records[id].resp_body == truncated_body(value_text(json_get(content, seq!['t', 'e', 'x', 't'])))
            &&& sc.records[id].req_headers == record_of(st, id).req_headers
            &&& sc.records[id].resp_headers == record_of(st, id).resp_headers
        }),
{
    let s1 = after_reply(st, actor, id, p1);
    assert(s1.header_phase[actor] == 1);
    assert(s1.records[id].req_headers == parsed_headers(
        json_as_array(json_get(p1, seq!['h', 'e', 'a', 'd', 'e', 'r', 's']))->0,
    ));
}

/// The text of a response's `content.text` (see [`value_text`]).
pub fn value_to_text(value: Option<&Json>) -> (text: String)
    ensures
        text@ == value_text(opt(value)),
{
    match value {
        Some(Json::Str(s)) => s.clone(),
        Some(other) => to_json_text(other),
        None => String::new(),
    }
}

/// The `(name, value)` pairs of a `headers` reply (see [`parsed_headers`]).
pub fn parse_headers(headers: &Vec<Json>) -> (parsed: Vec<(String, String)>)
    ensures
        headers_view(parsed@) == parsed_headers(headers@),
{
    proof {
        reveal_strlit("name");
        reveal_strlit("value");
    }
    assert("name"@ =~= seq!['n', 'a', 'm', 'e']);
    assert("value"@ =~= seq!['v', 'a', 'l', 'u', 'e']);
    let mut parsed: Vec<(String, String)> = Vec::new();
    let mut i: usize = 0;
    while i < headers.len()
        invariant
            i <= headers@.len(),
            headers_view(parsed@) == parsed_headers(headers@.take(i as int)),
            "name"@ == seq!['n', 'a', 'm', 'e'],
            "value"@ == seq!['v', 'a', 'l', 'u', 'e'],
        decreases headers@.len() - i,
    {
        proof {
            assert(headers@.take(i as int + 1).drop_last() =~= headers@.take(i as int));
        }
        let h = &headers[i];
        match as_str(get(h, "name")) {
            Some(name) => {
                let value = match as_str(get(h, "value")) {
                    Some(v) => v.clone(),
                    None => String::new(),
                };
                let ghost before = headers_view(parsed@);
                let ghost pair = (name@, value@);
                parsed.push((name.clone(), value));
                assert(headers_view(parsed@) =~= before.push(pair));
            },
            None => {},
        }
        i = i + 1;
    }
    assert(headers@.take(headers@.len() as int) =~= headers@);
    parsed
}

/// The ids of `touched`, each once, in increasing order.
pub fn sorted_unique(touched: &Vec<u64>) -> (ids: Vec<u64>)
    ensures
        sorted_ids_of(ids@, touched@),
{
    let mut ids: Vec<u64> = Vec::new();
    let mut i: usize = 0;
    assert(touched@.take(0) =~= Seq::<u64>::empty());
    assert(ids@.to_set() =~= touched@.take(0).to_set());
    while i < touched.len()
        invariant
            i <= touched@.len(),
            sorted_ids_of(ids@, touched@.take(i as int)),
        decreases touched@.len() - i,
    {
        let x = touched[i];
        let ghost old_ids = ids@;
        let mut j: usize = 0;
        while j < ids.len() && ids[j] < x
            invariant
                ids@ == old_ids,
                j <= ids@.len(),
                forall|k: int| 0 <= k < j ==> ids@[k] < x,
            decreases ids@.len() - j,
        {
            j = j + 1;
        }
        if j < ids.len() && ids[j] == x {
        } else {
            ids.insert(j, x);
            proof {
                assert forall|a: int, b: int| 0 <= a < b < ids@.len() implies ids@[a] < ids@[b] by {
                    if b < j as int {
                    } else if a < j as int && b == j as int {
                    } else if a < j as int {
                        assert(ids@[b] == old_ids[b - 1]);
                        if j < old_ids.len() {
                            assert(old_ids[j as int] > x);
                        }
                    } else if a == j as int {
                        assert(ids@[b] == old_ids[b - 1]);
                        assert(old_ids[j as int] >= x);
                        if b - 1 > j {
                            assert(old_ids[j as int] < old_ids[b - 1]);
                        }
                    } else {
                        assert(ids@[a] == old_ids[a - 1]);
                        assert(ids@[b] == old_ids[b - 1]);
                    }
                }
            }
        }
        proof {
            let pre = touched@.take(i as int);
            let post = touched@.take(i as int + 1);
            assert(post =~= pre.push(x));
            assert forall|v: u64| ids@.to_set().contains(v) implies post.to_set().contains(v) by {
                let k = choose|k: int| 0 <= k < ids@.len() && ids@[k] == v;
                if v != x {
                    if ids@.len() != old_ids.len() {
                        if k < j {
                            assert(old_ids[k] == v);
                        } else {
                            assert(old_ids[k - 1] == v);
                        }
                    } else {
                        assert(old_ids[k] == v);
                    }
                    assert(old_ids.to_set().contains(v));
                    assert(pre.to_set().contains(v));
                    let m = choose|m: int| 0 <= m < pre.len() && pre[m] == v;
                    assert(post[m] == v);
                } else {
                    assert(post[i as int] == v);
                }
            }
            assert forall|v: u64| post.to_set().contains(v) implies ids@.to_set().contains(v) by {
                let m = choose|m: int| 0 <= m < post.len() && post[m] == v;
                if m < i {
                    assert(pre[m] == v);
                    assert(pre.to_set().contains(v));
                    assert(old_ids.to_set().contains(v));
                    let k = choose|k: int| 0 <= k < old_ids.len() && old_ids[k] == v;
                    if ids@.len() != old_ids.len() {
                        if k < j {
                            assert(ids@[k] == v);
                        } else {
                            assert(ids@[k + 1] == v);
                        }
                    } else {
                        assert(ids@[k] == v);
                    }
                } else {
                    assert(ids@[j as int] == v);
                }
            }
            assert(ids@.to_set() =~= post.to_set());
        }
        i = i + 1;
    }
    assert(touched@.take(touched@.len() as int) =~= touched@);
    ids
}

} // verus!
