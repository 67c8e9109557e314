//! Request ids: one language server serves many clients, each of which numbers its requests on
//! its own.

use vstd::prelude::*;
use vstd::string::*;

use crate::error::Error;
use crate::json::{JsonView, NumberView};
use crate::protocol::lsp::{opt_frame, ClientId, IdView, JsonRpcId, LspFrame};
use crate::table::{
    find_route, insert_pending, insert_route, key_id, new_pending, new_routes, pending_in,
    remove_pending, remove_route, routes_in, IdKey, PendingTable, RouteTable,
};
use crate::text::same_text;

verus! {

/// A request that waits for its response.
pub struct PendingReq {
    pub client_id: ClientId,
    pub raw_req_id: JsonRpcId,
    pub method: String,
}

pub struct PendingView {
    pub client_id: ClientId,
    pub raw_req_id: IdView,
    pub method: Seq<char>,
}

impl View for PendingReq {
    type V = PendingView;

    open spec fn view(&self) -> PendingView {
        PendingView {
            client_id: self.client_id,
            raw_req_id: self.raw_req_id@,
            method: self.method@,
        }
    }
}

/// Gives the requests of all clients ids of their own, and gives responses the ids that their
/// clients wait for.
pub struct ReqIdMapper {
    next_global_id: u64,
    global_to_client: PendingTable,
    client_to_global: RouteTable,
    init_resp_cache: Option<LspFrame>,
}

pub struct MapperView {
    pub next: u64,
    pub pending: Map<i64, PendingView>,
    pub routes: Map<(ClientId, IdView), i64>,
    pub cache: Option<JsonView>,
}

impl View for ReqIdMapper {
    type V = MapperView;

    closed spec fn view(&self) -> MapperView {
        MapperView {
            next: self.next_global_id,
            pending: pending_in(self.global_to_client),
            routes: routes_in(self.client_to_global),
            cache: opt_frame(self.init_resp_cache),
        }
    }
}

/// A message and the client that it goes to.
pub struct RoutedPacket {
    pub client_id: u32,
    pub frame: LspFrame,
}

/// The id that stands for the count `next`: the count itself, read as a signed number.
pub open spec fn global_number(next: u64) -> i64 {
    if next <= i64::MAX {
        next as i64
    } else {
        (next - 0x1_0000_0000_0000_0000) as i64
    }
}

pub open spec fn following(next: u64) -> u64 {
    if next == u64::MAX {
        0
    } else {
        (next + 1) as u64
    }
}

impl MapperView {
    /// A mapper that has seen no message.
    pub open spec fn fresh() -> MapperView {
        MapperView { next: 1, pending: Map::empty(), routes: Map::empty(), cache: None }
    }

    /// A request that has an id is given a new one and noted as waiting; any other message is
    /// left as it is.
    pub open spec fn remap_req_id(self, cid: ClientId, packet: JsonView) -> (MapperView, JsonView) {
        match packet.id() {
            Some(id) => if packet.is_request() {
                let global = global_number(self.next);
                let request = PendingView {
                    client_id: cid,
                    raw_req_id: id,
                    method: match packet.method() {
                        Some(method) => method,
                        None => Seq::empty(),
                    },
                };
                (
                    MapperView {
                        next: following(self.next),
                        pending: self.pending.insert(global, request),
                        routes: self.routes.insert((cid, id), global),
                        cache: self.cache,
                    },
                    packet.with_id(IdView::Number(global)),
                )
            } else {
                (self, packet)
            },
            None => (self, packet),
        }
    }

    /// A cancel notification is made to name the request by the id that it was given.
    pub open spec fn remap_cancel_req(self, cid: ClientId, packet: JsonView) -> JsonView {
        match packet.cancel_request_id() {
            Some(id) => if self.routes.contains_key((cid, id)) {
                packet.with_cancel_request_id(IdView::Number(self.routes[(cid, id)]))
            } else {
                packet
            },
            None => packet,
        }
    }

    /// What becomes of a message from a client.
    pub open spec fn rewrite_client(self, cid: ClientId, packet: JsonView) -> (
        MapperView,
        JsonView,
    ) {
        let (mapper, remapped) = self.remap_req_id(cid, packet);
        (mapper, mapper.remap_cancel_req(cid, remapped))
    }

    /// The id of the waiting request that a message answers.
    pub open spec fn answered(self, packet: JsonView) -> Option<i64> {
        if packet.is_response() {
            match packet.id() {
                Some(IdView::Number(global)) => if self.pending.contains_key(global) {
                    Some(global)
                } else {
                    None
                },
                _ => None,
            }
        } else {
            None
        }
    }

    /// What becomes of a message from the language server, and which client it goes to: a
    /// response goes to the client whose request it answers, any other message to the active one.
    pub open spec fn rewrite_ra(self, packet: JsonView, active: ClientId) -> (
        MapperView,
        ClientId,
        JsonView,
    ) {
        match self.answered(packet) {
            Some(global) => {
                let request = self.pending[global];
                (
                    MapperView {
                        next: self.next,
                        pending: self.pending.remove(global),
                        routes: self.routes.remove((request.client_id, request.raw_req_id)),
                        cache: if request.method == "initialize"@ && packet.is_success_response() {
                            Some(packet)
                        } else {
                            self.cache
                        },
                    },
                    request.client_id,
                    packet.with_id(request.raw_req_id),
                )
            },
            None => (self, active, packet),
        }
    }

    /// The answer to an initialize request that needs no language server.
    pub open spec fn cached_initialize(self, id: IdView) -> Option<JsonView> {
        match self.cache {
            Some(response) => Some(response.with_id(id)),
            None => None,
        }
    }
}

fn id_key(id: &JsonRpcId) -> (key: IdKey)
    ensures
        key_id(key) == id@,
{
    match id {
        JsonRpcId::Number(number) => Ok(*number),
        JsonRpcId::String(text) => Err(text.clone()),
    }
}

impl ReqIdMapper {
    pub fn new() -> (mapper: Self)
        ensures
            mapper@ == MapperView::fresh(),
    {
        ReqIdMapper {
            next_global_id: 1,
            global_to_client: new_pending(),
            client_to_global: new_routes(),
            init_resp_cache: None,
        }
    }

    /// Rewrites the ids in a message from a client to those that the language server is to see.
    pub fn rewrite_client_packet(&mut self, cid: ClientId, packet: LspFrame, _pid: u32) -> (rewritten:
        LspFrame)
        ensures
            (final(self)@, rewritten@) == old(self)@.rewrite_client(cid, packet@),
    {
        let mut packet = packet;
        self.remap_req_id(cid, &mut packet);
        self.remap_cancel_req(cid, &mut packet);
        packet
    }

    fn remap_req_id(&mut self, cid: ClientId, packet: &mut LspFrame)
        ensures
            (final(self)@, final(packet)@) == old(self)@.remap_req_id(cid, old(packet)@),
    {
        if !packet.is_request() {
            return;
        }
        let raw_req_id = match packet.id() {
            Some(id) => id,
            None => return,
        };
        let next = self.next_global_id;
        let global: i64 = if next <= i64::MAX as u64 {
            next as i64
        } else {
            -((u64::MAX - next) as i64) - 1
        };
        self.next_global_id = if next == u64::MAX {
            0
        } else {
            next + 1
        };
        let method = match packet.method() {
            Some(method) => method.to_string(),
            None => String::new(),
        };
        let key = id_key(&raw_req_id);
        insert_pending(
            &mut self.global_to_client,
            global,
            PendingReq { client_id: cid, raw_req_id, method },
        );
        insert_route(&mut self.client_to_global, cid, key, global);
        packet.set_id(JsonRpcId::Number(global));
    }

    fn remap_cancel_req(&self, cid: ClientId, packet: &mut LspFrame)
        ensures
            final(packet)@ == self@.remap_cancel_req(cid, old(packet)@),
    {
        let cancel_id = match packet.cancel_request_id() {
            Some(id) => id,
            None => return,
        };
        if let Some(global) = find_route(&self.client_to_global, cid, id_key(&cancel_id)) {
            packet.set_cancel_request_id(JsonRpcId::Number(global));
        }
    }

    /// Rewrites the id in a message from the language server to the one that its client waits
    /// for, and finds that client.
    pub fn rewrite_ra_packet(
        &mut self,
        packet: LspFrame,
        active_client_id: u32,
        _pid: u32,
    ) -> (routed: Result<RoutedPacket, Error>)
        ensures
            routed is Ok,
            (final(self)@, routed->Ok_0.client_id, routed->Ok_0.frame@) == old(self)@.rewrite_ra(
                packet@,
                active_client_id,
            ),
    {
        if packet.is_response() {
            if let Some(JsonRpcId::Number(global)) = packet.id() {
                if let Some(pending) = remove_pending(&mut self.global_to_client, global) {
                    if same_text(pending.method.as_str(), "initialize")
                        && packet.is_success_response() {
                        self.init_resp_cache = Some(packet.clone());
                    }
                    remove_route(
                        &mut self.client_to_global,
                        pending.client_id,
                        id_key(&pending.raw_req_id),
                    );
                    let mut frame = packet;
                    frame.set_id(pending.raw_req_id);
                    return Ok(RoutedPacket { client_id: pending.client_id, frame });
                }
                assert(self@.pending =~= old(self)@.pending);
            }
        }
        Ok(RoutedPacket { client_id: active_client_id, frame: packet })
    }

    /// The answer to an initialize request from the one that the language server gave before.
    pub fn initialize_response_from_cache(&self, id: JsonRpcId) -> (response: Option<LspFrame>)
        ensures
            opt_frame(response) == self@.cached_initialize(id@),
    {
        match &self.init_resp_cache {
            Some(cached) => {
                let mut response = cached.clone();
                response.set_id(id);
                Some(response)
            },
            None => None,
        }
    }
}

/// The count that an id stands for.
pub open spec fn issue_count(global: i64) -> int {
    if global >= 0 {
        global as int
    } else {
        global + 0x1_0000_0000_0000_0000
    }
}

/// A message that passes through a mapper.
pub enum Traffic {
    FromClient { cid: ClientId, packet: JsonView },
    FromServer { packet: JsonView, active: ClientId },
}

impl MapperView {
    /// Whether every waiting request has an id that was given out before, and every client id
    /// leads to a waiting request of that client under that id.
    pub open spec fn consistent(self) -> bool {
        &&& 1 <= self.next
        &&& forall|global: i64| #[trigger]
            self.pending.contains_key(global) ==> 1 <= issue_count(global) < self.next
        &&& forall|key: (ClientId, IdView)| #[trigger]
            self.routes.contains_key(key) ==> {
                &&& self.pending.contains_key(self.routes[key])
                &&& self.pending[self.routes[key]].client_id == key.0
                &&& self.pending[self.routes[key]].raw_req_id == key.1
            }
    }

    pub open spec fn after(self, traffic: Traffic) -> MapperView {
        match traffic {
            Traffic::FromClient { cid, packet } => self.rewrite_client(cid, packet).0,
            Traffic::FromServer { packet, active } => self.rewrite_ra(packet, active).0,
        }
    }

    pub open spec fn after_all(self, traffic: Seq<Traffic>) -> MapperView
        decreases traffic.len(),
    {
        if traffic.len() == 0 {
            self
        } else {
            self.after_all(traffic.drop_last()).after(traffic.last())
        }
    }
}

/// A new mapper is consistent.
pub proof fn law_new_mapper_is_consistent()
    ensures
        MapperView::fresh().consistent(),
{
}

/// The id that a request is given is the id of no request that waits.
pub proof fn law_given_id_is_unused(mapper: MapperView)
    requires
        mapper.consistent(),
    ensures
        !mapper.pending.contains_key(global_number(mapper.next)),
{
    assert(issue_count(global_number(mapper.next)) == mapper.next);
}

proof fn lemma_count_grows(mapper: MapperView, traffic: Seq<Traffic>)
    requires
        mapper.next + traffic.len() <= u64::MAX,
    ensures
        mapper.next <= mapper.after_all(traffic).next <= mapper.next + traffic.len(),
    decreases traffic.len(),
{
    if traffic.len() > 0 {
        lemma_count_grows(mapper, traffic.drop_last());
    }
}

/// No id is given to two requests, answered or not, of whichever clients and whatever passed in
/// between, until the ids run out.
pub proof fn law_no_id_is_given_twice(
    mapper: MapperView,
    cid: ClientId,
    request: JsonView,
    traffic: Seq<Traffic>,
    later_cid: ClientId,
    later_request: JsonView,
)
    requires
        mapper.next + 1 + traffic.len() <= u64::MAX,
        request.is_request(),
        request.id() is Some,
        later_request.is_request(),
        later_request.id() is Some,
    ensures
        ({
            let (sent, forwarded) = mapper.rewrite_client(cid, request);
            let later = sent.after_all(traffic).rewrite_client(later_cid, later_request).1;
            forwarded.id() != later.id()
        }),
{
    let sent = mapper.rewrite_client(cid, request).0;
    let then = sent.after_all(traffic);
    lemma_count_grows(sent, traffic);
    lemma_given_id(mapper, cid, request);
    lemma_given_id(then, later_cid, later_request);
    assert(issue_count(global_number(mapper.next)) == mapper.next);
    assert(issue_count(global_number(then.next)) == then.next);
}

/// No message makes a mapper inconsistent, until the ids run out.
pub proof fn law_traffic_keeps_consistency(mapper: MapperView, traffic: Traffic)
    requires
        mapper.consistent(),
        mapper.next < u64::MAX,
    ensures
        mapper.after(traffic).consistent(),
        mapper.next <= mapper.after(traffic).next <= mapper.next + 1,
{
    law_given_id_is_unused(mapper);
    let after = mapper.after(traffic);
    assert(issue_count(global_number(mapper.next)) == mapper.next);
    assert forall|key: (ClientId, IdView)| #[trigger] after.routes.contains_key(key) implies {
        &&& after.pending.contains_key(after.routes[key])
        &&& after.pending[after.routes[key]].client_id == key.0
        &&& after.pending[after.routes[key]].raw_req_id == key.1
    } by {
        if mapper.routes.contains_key(key) {
            assert(mapper.pending.contains_key(mapper.routes[key]));
        }
    }
}

proof fn lemma_given_id(mapper: MapperView, cid: ClientId, request: JsonView)
    requires
        request.is_request(),
        request.id() is Some,
    ensures
        mapper.rewrite_client(cid, request).1.id() == Some(
            IdView::Number(global_number(mapper.next)),
        ),
{
    reveal_strlit("id");
    reveal_strlit("params");
    let remapped = mapper.remap_req_id(cid, request).1;
    let global = global_number(mapper.next);
    assert(remapped.member("id"@) == Some(IdView::Number(global).json()));
    assert("id"@ != "params"@) by {
        assert("id"@.len() == 2);
        assert("params"@.len() == 6);
    }
}

proof fn lemma_request_waits(mapper: MapperView, traffic: Seq<Traffic>, global: i64)
    requires
        mapper.consistent(),
        mapper.next + traffic.len() <= u64::MAX,
        mapper.pending.contains_key(global),
        forall|i: int|
            0 <= i < traffic.len() ==> !((#[trigger] traffic[i]) matches Traffic::FromServer {
                packet,
                active,
            } && packet.is_response() && packet.id() == Some(IdView::Number(global))),
    ensures
        mapper.after_all(traffic).consistent(),
        mapper.after_all(traffic).next <= mapper.next + traffic.len(),
        mapper.after_all(traffic).pending.contains_key(global),
        mapper.after_all(traffic).pending[global] == mapper.pending[global],
    decreases traffic.len(),
{
    if traffic.len() > 0 {
        let earlier = traffic.drop_last();
        assert forall|i: int| 0 <= i < earlier.len() implies !((#[trigger] earlier[i]) matches
            Traffic::FromServer { packet, active } && packet.is_response() && packet.id() == Some(
            IdView::Number(global),
        )) by {
            assert(earlier[i] == traffic[i]);
        }
        lemma_request_waits(mapper, earlier, global);
        let before = mapper.after_all(earlier);
        law_traffic_keeps_consistency(before, traffic.last());
        law_given_id_is_unused(before);
        assert(traffic.last() == traffic[traffic.len() - 1]);
    }
}

/// The response to a request goes to the client that sent the request, under the id that the
/// client gave it, whatever passed in between, until the ids run out.
pub proof fn law_response_reaches_its_client(
    mapper: MapperView,
    cid: ClientId,
    request: JsonView,
    traffic: Seq<Traffic>,
    response: JsonView,
    active: ClientId,
)
    requires
        mapper.consistent(),
        mapper.next + 1 + traffic.len() <= u64::MAX,
        request.is_request(),
        request.id() is Some,
        response.is_response(),
        response.id() == mapper.rewrite_client(cid, request).1.id(),
        forall|i: int|
            0 <= i < traffic.len() ==> !((#[trigger] traffic[i]) matches Traffic::FromServer {
                packet,
                active,
            } && packet.is_response() && packet.id() == response.id()),
    ensures
        ({
            let (_, client, delivered) = mapper.rewrite_client(cid, request).0.after_all(
                traffic,
            ).rewrite_ra(response, active);
            client == cid && delivered == response.with_id(request.id()->0)
        }),
{
    let sent = mapper.rewrite_client(cid, request).0;
    let global = global_number(mapper.next);
    lemma_given_id(mapper, cid, request);
    law_traffic_keeps_consistency(mapper, Traffic::FromClient { cid, packet: request });
    assert(sent == mapper.after(Traffic::FromClient { cid, packet: request }));
    lemma_request_waits(sent, traffic, global);
}

/// A response is delivered once: the request that it answers waits no longer.
pub proof fn law_answered_request_waits_no_longer(
    mapper: MapperView,
    response: JsonView,
    active: ClientId,
)
    requires
        mapper.answered(response) is Some,
    ensures
        mapper.rewrite_ra(response, active).0.answered(response) is None,
{
}

/// A message that answers no waiting request goes to the active client as it is.
pub proof fn law_other_messages_go_to_the_active_client(
    mapper: MapperView,
    packet: JsonView,
    active: ClientId,
)
    requires
        mapper.answered(packet) is None,
    ensures
        mapper.rewrite_ra(packet, active) == (mapper, active, packet),
{
}

/// Whether a client uses an id for no request but the given one.
pub open spec fn uses_id_for(mapper: MapperView, cid: ClientId, id: IdView, global: i64) -> bool {
    forall|other: i64| #[trigger]
        mapper.pending.contains_key(other) && mapper.pending[other].client_id == cid
            && mapper.pending[other].raw_req_id == id ==> other == global
}

/// Whether a message neither answers the request that was given the id `global` nor is another
/// request of the client under the id `id`.
pub open spec fn leaves_request(traffic: Traffic, cid: ClientId, id: IdView, global: i64) -> bool {
    match traffic {
        Traffic::FromClient { cid: from, packet } => !(from == cid && packet.is_request()
            && packet.id() == Some(id)),
        Traffic::FromServer { packet, .. } => !(packet.is_response() && packet.id() == Some(
            IdView::Number(global),
        )),
    }
}

proof fn lemma_route_stays(
    mapper: MapperView,
    cid: ClientId,
    id: IdView,
    global: i64,
    traffic: Seq<Traffic>,
)
    requires
        mapper.consistent(),
        mapper.next + traffic.len() <= u64::MAX,
        mapper.routes.contains_key((cid, id)),
        mapper.routes[(cid, id)] == global,
        uses_id_for(mapper, cid, id, global),
        forall|i: int|
            0 <= i < traffic.len() ==> leaves_request(#[trigger] traffic[i], cid, id, global),
    ensures
        ({
            let later = mapper.after_all(traffic);
            &&& later.consistent()
            &&& later.next <= mapper.next + traffic.len()
            &&& later.routes.contains_key((cid, id))
            &&& later.routes[(cid, id)] == global
            &&& uses_id_for(later, cid, id, global)
        }),
    decreases traffic.len(),
{
    if traffic.len() > 0 {
        let earlier = traffic.drop_last();
        assert forall|i: int| 0 <= i < earlier.len() implies leaves_request(
            #[trigger] earlier[i],
            cid,
            id,
            global,
        ) by {
            assert(earlier[i] == traffic[i]);
        }
        lemma_route_stays(mapper, cid, id, global, earlier);
        let before = mapper.after_all(earlier);
        law_traffic_keeps_consistency(before, traffic.last());
        assert(leaves_request(traffic[traffic.len() - 1], cid, id, global));
    }
}

/// As long as a request waits, a cancel notification of its client for it is made to name it by
/// the id that it was given, provided that the client uses its id for no other request meanwhile.
pub proof fn law_cancel_follows_its_request(
    mapper: MapperView,
    cid: ClientId,
    request: JsonView,
    traffic: Seq<Traffic>,
    cancel: JsonView,
)
    requires
        mapper.consistent(),
        mapper.next + 1 + traffic.len() <= u64::MAX,
        request.is_request(),
        request.id() is Some,
        uses_id_for(mapper, cid, request.id()->0, global_number(mapper.next)),
        forall|i: int|
            0 <= i < traffic.len() ==> leaves_request(
                #[trigger] traffic[i],
                cid,
                request.id()->0,
                global_number(mapper.next),
            ),
        !cancel.is_request(),
        cancel.cancel_request_id() == request.id(),
    ensures
        ({
            let (sent, forwarded) = mapper.rewrite_client(cid, request);
            sent.after_all(traffic).rewrite_client(cid, cancel).1.cancel_request_id()
                == forwarded.id()
        }),
{
    let id = request.id()->0;
    let global = global_number(mapper.next);
    let sent = mapper.rewrite_client(cid, request).0;
    lemma_given_id(mapper, cid, request);
    law_traffic_keeps_consistency(mapper, Traffic::FromClient { cid, packet: request });
    assert(sent == mapper.after(Traffic::FromClient { cid, packet: request }));
    lemma_route_stays(sent, cid, id, global, traffic);
    lemma_cancel_id(cancel, IdView::Number(global));
}

proof fn lemma_cancel_id(cancel: JsonView, id: IdView)
    requires
        cancel.cancel_request_id() is Some,
    ensures
        cancel.with_cancel_request_id(id).cancel_request_id() == Some(id),
{
    reveal_strlit("method");
    reveal_strlit("params");
    assert("method"@ != "params"@) by {
        assert("method"@[0] == 'm');
        assert("params"@[0] == 'p');
    }
    let rewritten = cancel.with_cancel_request_id(id);
    assert(rewritten.member("method"@) == cancel.member("method"@));
    let params = cancel.member("params"@)->0;
    assert(rewritten.member("params"@) == Some(params.with_id(id)));
    assert(params.with_id(id).member("id"@) == Some(id.json()));
}

/// A client can only cancel requests of its own: a cancel notification that is rewritten names a
/// waiting request of the client that sent it, under the id that the client gave it.
pub proof fn law_cancel_names_own_request(mapper: MapperView, cid: ClientId, cancel: JsonView)
    requires
        mapper.consistent(),
        cancel.cancel_request_id() is Some,
        mapper.routes.contains_key((cid, cancel.cancel_request_id()->0)),
    ensures
        mapper.remap_cancel_req(cid, cancel).cancel_request_id() matches Some(IdView::Number(global))
            && mapper.pending.contains_key(global) && mapper.pending[global].client_id == cid
            && mapper.pending[global].raw_req_id == cancel.cancel_request_id()->0,
{
    let id = cancel.cancel_request_id()->0;
    lemma_cancel_id(cancel, IdView::Number(mapper.routes[(cid, id)]));
}

/// Once an initialize request was answered with success, that answer is given to whoever asks
/// again, under the id that they ask with.
pub proof fn law_initialize_is_answered_again(
    mapper: MapperView,
    cid: ClientId,
    request: JsonView,
    response: JsonView,
    active: ClientId,
    id: IdView,
)
    requires
        request.is_request_method("initialize"@),
        request.id() is Some,
        response.is_success_response(),
        response.id() == mapper.rewrite_client(cid, request).1.id(),
    ensures
        mapper.rewrite_client(cid, request).0.rewrite_ra(response, active).0.cached_initialize(id)
            == Some(response.with_id(id)),
{
    lemma_given_id(mapper, cid, request);
}

/// An answer to initialize, once remembered, is never forgotten.
pub proof fn law_initialize_stays_answered(mapper: MapperView, traffic: Seq<Traffic>)
    requires
        mapper.cache is Some,
    ensures
        mapper.after_all(traffic).cache is Some,
    decreases traffic.len(),
{
    if traffic.len() > 0 {
        law_initialize_stays_answered(mapper, traffic.drop_last());
    }
}

/// Whether a value is an id that a response can be matched by: an integer that fits, or a text.
pub open spec fn names_id(value: JsonView, id: IdView) -> bool {
    match id {
        IdView::Number(number) => value == JsonView::Number(NumberView::Integer(number as int)),
        IdView::Text(text) => value == JsonView::Text(text),
    }
}

/// Whether the members are those of a request with the given id.
pub open spec fn asks_with(members: Map<Seq<char>, JsonView>, id: IdView) -> bool {
    members.contains_key("method"@) && members.contains_key("id"@) && names_id(members["id"@], id)
}

/// Whether the members are those of a notification that cancels a request.
pub open spec fn cancels(members: Map<Seq<char>, JsonView>) -> bool {
    members.contains_key("method"@) && members["method"@] == JsonView::Text("$/cancelRequest"@)
}

proof fn lemma_names_id(value: JsonView, id: IdView)
    ensures
        names_id(value, id) <==> IdView::from_json(value) == Some(id),
{
}

proof fn lemma_member_names()
    ensures
        "id"@ != "params"@,
        "id"@ != "method"@,
        "method"@ != "params"@,
{
    reveal_strlit("id");
    reveal_strlit("params");
    reveal_strlit("method");
    assert("id"@.len() == 2);
    assert("params"@.len() == 6 && "params"@[0] == 'p');
    assert("method"@.len() == 6 && "method"@[0] == 'm');
}

/// A message of a client reaches the language server with the members that it was sent with: no
/// member comes or goes, and none changes but the id, and the parameters of a cancel notification.
pub proof fn law_client_message_keeps_its_members(
    mapper: MapperView,
    cid: ClientId,
    members: Map<Seq<char>, JsonView>,
    key: Seq<char>,
)
    ensures
        mapper.rewrite_client(cid, JsonView::Object(members)).1 matches JsonView::Object(after)
            && after.dom() == members.dom() && (members.contains_key(key) && key != "id"@ && (key
            != "params"@ || !cancels(members)) ==> after[key] == members[key]),
{
    lemma_member_names();
    let packet = JsonView::Object(members);
    let remapped = mapper.remap_req_id(cid, packet).1;
    assert(remapped matches JsonView::Object(after) && after.dom() =~= members.dom());
    let rewritten = mapper.rewrite_client(cid, packet).1;
    assert(rewritten matches JsonView::Object(after) && after.dom() =~= members.dom());
}

/// The numbers are counted up one by one, and start again once all that sixty-four bits can tell
/// apart have been given out; each is the number itself, or as much below zero as it is too large.
pub proof fn law_numbers_are_counted(next: u64)
    ensures
        following(next) == (next + 1) % 0x1_0000_0000_0000_0000,
        next < 0x8000_0000_0000_0000 ==> global_number(next) == next,
        next >= 0x8000_0000_0000_0000 ==> global_number(next) == next - 0x1_0000_0000_0000_0000,
{
}

/// The id of a request becomes the next number that is due, and the id of any other message stays.
pub proof fn law_only_requests_are_renumbered(
    mapper: MapperView,
    cid: ClientId,
    members: Map<Seq<char>, JsonView>,
)
    requires
        members.contains_key("id"@),
    ensures
        mapper.rewrite_client(cid, JsonView::Object(members)).1 matches JsonView::Object(after)
            && after.contains_key("id"@) && after["id"@] == if exists|id: IdView|
            asks_with(members, id) {
            JsonView::Number(
                NumberView::Integer(
                    if mapper.next < 0x8000_0000_0000_0000 {
                        mapper.next as int
                    } else {
                        mapper.next - 0x1_0000_0000_0000_0000
                    },
                ),
            )
        } else {
            members["id"@]
        },
{
    lemma_member_names();
    let packet = JsonView::Object(members);
    assert forall|id: IdView| asks_with(members, id) implies packet.is_request() && packet.id()
        == Some(id) by {
        lemma_names_id(members["id"@], id);
    }
    if packet.is_request() && packet.id() is Some {
        lemma_names_id(members["id"@], packet.id()->0);
        assert(asks_with(members, packet.id()->0));
    }
}

/// A value that is no object, and an object that neither asks nor cancels, passes as it is and
/// leaves no trace.
pub proof fn law_other_client_messages_pass(mapper: MapperView, cid: ClientId, packet: JsonView)
    requires
        packet matches JsonView::Object(members) ==> !cancels(members) && forall|id: IdView|
            !asks_with(members, id),
    ensures
        mapper.rewrite_client(cid, packet) == (mapper, packet),
{
    if let JsonView::Object(members) = packet {
        if packet.is_request() && packet.id() is Some {
            lemma_names_id(members["id"@], packet.id()->0);
            assert(asks_with(members, packet.id()->0));
        }
    }
}

/// A request is noted under its new number with its client, its own id and its method, which is
/// empty where it is no string; nothing that was noted before goes, and the remembered answer to
/// initialize stays.
pub proof fn law_request_is_noted(
    mapper: MapperView,
    cid: ClientId,
    members: Map<Seq<char>, JsonView>,
    id: IdView,
    method: Seq<char>,
)
    requires
        asks_with(members, id),
    ensures
        ({
            let after = mapper.rewrite_client(cid, JsonView::Object(members)).0;
            let number = if mapper.next < 0x8000_0000_0000_0000 {
                mapper.next as i64
            } else {
                (mapper.next - 0x1_0000_0000_0000_0000) as i64
            };
            &&& after.next == (mapper.next + 1) % 0x1_0000_0000_0000_0000
            &&& after.pending.contains_key(number)
            &&& after.pending[number].client_id == cid
            &&& after.pending[number].raw_req_id == id
            &&& members["method"@] == JsonView::Text(method) ==> after.pending[number].method
                == method
            &&& !(members["method"@] is Text) ==> after.pending[number].method.len() == 0
            &&& forall|other: i64|
                other != number ==> #[trigger] after.pending.contains_key(other)
                    == mapper.pending.contains_key(other) && after.pending[other]
                    == mapper.pending[other]
            &&& after.routes.contains_key((cid, id))
            &&& after.routes[(cid, id)] == number
            &&& forall|other: (ClientId, IdView)|
                other != (cid, id) ==> #[trigger] after.routes.contains_key(other)
                    == mapper.routes.contains_key(other) && after.routes[other]
                    == mapper.routes[other]
            &&& after.cache == mapper.cache
        }),
{
    lemma_names_id(members["id"@], id);
}

/// A message that asks nothing changes nothing that is noted.
pub proof fn law_other_messages_are_not_noted(
    mapper: MapperView,
    cid: ClientId,
    members: Map<Seq<char>, JsonView>,
)
    requires
        forall|id: IdView| !asks_with(members, id),
    ensures
        mapper.rewrite_client(cid, JsonView::Object(members)).0 == mapper,
{
    let packet = JsonView::Object(members);
    if packet.is_request() && packet.id() is Some {
        lemma_names_id(members["id"@], packet.id()->0);
        assert(asks_with(members, packet.id()->0));
    }
}

/// A cancel notification keeps its parameters but for the id, which becomes the number that the
/// request of this client under this id was given, where there is one.
pub proof fn law_cancel_changes_only_the_id(
    mapper: MapperView,
    cid: ClientId,
    members: Map<Seq<char>, JsonView>,
    params: Map<Seq<char>, JsonView>,
    id: IdView,
)
    requires
        cancels(members),
        !members.contains_key("id"@),
        members.contains_key("params"@),
        members["params"@] == JsonView::Object(params),
        params.contains_key("id"@),
        names_id(params["id"@], id),
    ensures
        mapper.rewrite_client(cid, JsonView::Object(members)).1 == JsonView::Object(
            members.insert(
                "params"@,
                JsonView::Object(
                    params.insert(
                        "id"@,
                        if mapper.routes.contains_key((cid, id)) {
                            JsonView::Number(
                                NumberView::Integer(mapper.routes[(cid, id)] as int),
                            )
                        } else {
                            params["id"@]
                        },
                    ),
                ),
            ),
        ),
{
    lemma_member_names();
    lemma_names_id(params["id"@], id);
    let packet = JsonView::Object(members);
    assert(packet.cancel_request_id() == Some(id));
    assert(params.insert("id"@, params["id"@]) =~= params);
    assert(members.insert("params"@, JsonView::Object(params)) =~= members);
}

/// Whether the members are those of the answer to the request that waits under a number.
pub open spec fn answers(
    mapper: MapperView,
    members: Map<Seq<char>, JsonView>,
    number: i64,
) -> bool {
    &&& members.contains_key("id"@)
    &&& members["id"@] == JsonView::Number(NumberView::Integer(number as int))
    &&& members.contains_key("result"@) || members.contains_key("error"@)
    &&& mapper.pending.contains_key(number)
}

proof fn lemma_answers(mapper: MapperView, members: Map<Seq<char>, JsonView>, number: i64)
    ensures
        answers(mapper, members, number) <==> mapper.answered(JsonView::Object(members)) == Some(
            number,
        ),
{
    if members.contains_key("id"@) {
        lemma_names_id(members["id"@], IdView::Number(number));
    }
}

/// The answer to a request goes to the client that asked, with every member as the language server
/// gave it but for the id, which is the client's own again. The request waits no longer; every
/// other one does.
pub proof fn law_answer_is_given_back_as_it_is(
    mapper: MapperView,
    members: Map<Seq<char>, JsonView>,
    number: i64,
    active: ClientId,
)
    requires
        answers(mapper, members, number),
    ensures
        ({
            let request = mapper.pending[number];
            let own_id = match request.raw_req_id {
                IdView::Number(own) => JsonView::Number(NumberView::Integer(own as int)),
                IdView::Text(own) => JsonView::Text(own),
            };
            let (after, client, delivered) = mapper.rewrite_ra(JsonView::Object(members), active);
            &&& client == request.client_id
            &&& delivered == JsonView::Object(members.insert("id"@, own_id))
            &&& after.next == mapper.next
            &&& !after.pending.contains_key(number)
            &&& forall|other: i64|
                other != number ==> #[trigger] after.pending.contains_key(other)
                    == mapper.pending.contains_key(other) && after.pending[other]
                    == mapper.pending[other]
            &&& !after.routes.contains_key((request.client_id, request.raw_req_id))
            &&& forall|other: (ClientId, IdView)|
                other != (request.client_id, request.raw_req_id)
                    ==> #[trigger] after.routes.contains_key(other) == mapper.routes.contains_key(
                    other,
                ) && after.routes[other] == mapper.routes[other]
        }),
{
    lemma_answers(mapper, members, number);
}

/// A message from the language server that answers no waiting request goes to the active client as
/// it is, and leaves no trace.
pub proof fn law_other_server_messages_pass(
    mapper: MapperView,
    packet: JsonView,
    active: ClientId,
)
    requires
        packet matches JsonView::Object(members) ==> forall|number: i64|
            !answers(mapper, members, number),
    ensures
        mapper.rewrite_ra(packet, active) == (mapper, active, packet),
{
    if let JsonView::Object(members) = packet {
        if let Some(number) = mapper.answered(packet) {
            lemma_answers(mapper, members, number);
        }
    }
}

/// Whether a message answers a waiting initialize request, and with success.
pub open spec fn initializes(mapper: MapperView, traffic: Traffic) -> bool {
    match traffic {
        Traffic::FromServer { packet: JsonView::Object(members), .. } => members.contains_key(
            "result"@,
        ) && exists|number: i64| #[trigger]
            answers(mapper, members, number) && mapper.pending[number].method == "initialize"@,
        _ => false,
    }
}

/// What is remembered of initialize is changed by a successful answer to an initialize request,
/// which is then what is remembered, and by no other message from anyone.
pub proof fn law_only_initialize_is_remembered(mapper: MapperView, traffic: Traffic)
    ensures
        mapper.after(traffic).cache == if initializes(mapper, traffic) {
            Some(traffic->FromServer_packet)
        } else {
            mapper.cache
        },
{
    if let Traffic::FromServer { packet: JsonView::Object(members), active } = traffic {
        assert forall|number: i64| #[trigger] answers(mapper, members, number) implies
            mapper.answered(JsonView::Object(members)) == Some(number) by {
            lemma_answers(mapper, members, number);
        }
        if let Some(number) = mapper.answered(JsonView::Object(members)) {
            lemma_answers(mapper, members, number);
            assert(answers(mapper, members, number));
        }
    }
}

/// Over any traffic, the answer that is remembered is the last successful answer to an initialize
/// request: what follows it without being one changes nothing.
pub proof fn law_last_initialize_answer_is_remembered(
    mapper: MapperView,
    answer: Traffic,
    traffic: Seq<Traffic>,
)
    requires
        initializes(mapper, answer),
        forall|i: int|
            0 <= i < traffic.len() ==> !initializes(
                mapper.after(answer).after_all(traffic.take(i)),
                #[trigger] traffic[i],
            ),
    ensures
        mapper.after(answer).after_all(traffic).cache == Some(answer->FromServer_packet),
    decreases traffic.len(),
{
    law_only_initialize_is_remembered(mapper, answer);
    if traffic.len() > 0 {
        let earlier = traffic.drop_last();
        let last = traffic.len() - 1;
        assert(traffic.take(last) =~= earlier);
        assert forall|i: int| 0 <= i < earlier.len() implies !initializes(
            mapper.after(answer).after_all(earlier.take(i)),
            #[trigger] earlier[i],
        ) by {
            assert(earlier.take(i) =~= traffic.take(i));
            assert(earlier[i] == traffic[i]);
        }
        law_last_initialize_answer_is_remembered(mapper, answer, earlier);
        assert(!initializes(mapper.after(answer).after_all(earlier), traffic[last]));
        law_only_initialize_is_remembered(
            mapper.after(answer).after_all(earlier),
            traffic.last(),
        );
    }
}

/// Whoever asks to initialize again is given what is remembered with every member as it was but
/// for the id, which is theirs; where nothing is remembered nobody is.
pub proof fn law_remembered_answer_is_given_as_it_is(
    mapper: MapperView,
    members: Map<Seq<char>, JsonView>,
    id: IdView,
)
    ensures
        mapper.cache is None ==> mapper.cached_initialize(id) is None,
        mapper.cache == Some(JsonView::Object(members)) ==> mapper.cached_initialize(id) == Some(
            JsonView::Object(
                members.insert(
                    "id"@,
                    match id {
                        IdView::Number(own) => JsonView::Number(NumberView::Integer(own as int)),
                        IdView::Text(own) => JsonView::Text(own),
                    },
                ),
            ),
        ),
{
}

/// A new mapper has nothing noted, remembers nothing, and gives out the number one first.
pub proof fn law_new_mapper_is_empty(number: i64, route: (ClientId, IdView))
    ensures
        MapperView::fresh().next == 1,
        !MapperView::fresh().pending.contains_key(number),
        !MapperView::fresh().routes.contains_key(route),
        MapperView::fresh().cache is None,
{
}

} // verus!
