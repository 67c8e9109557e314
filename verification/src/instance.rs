//! Language server instances: which run, who is attached to them, and when they end.

use serde_json::Value;
use vstd::prelude::*;
use vstd::string::*;

use crate::error::ErrorView;
use crate::json::{json_of, json_text, parsed_json, JsonView, NumberView};
use crate::mapper::{
    answers, law_answer_is_given_back_as_it_is, law_other_server_messages_pass,
    law_response_reaches_its_client, names_id, MapperView, ReqIdMapper, Traffic,
};
use crate::protocol::lsp::{
    bounds_fit, decode_single_packet, framed, law_framed_decodes, lsp_decoded, opt_frame, IdView,
    JsonRpcId, LspFrame,
};
use crate::table::{
    clients_in, count_clients, has_client, insert_client, new_clients, remove_client, ClientTable,
};
use crate::text::{
    chars_of, find_char, has_prefix, lemma_position, lemma_position_at, opt_text, position,
    starts_with, string_of,
};

verus! {

/// The name of an instance: the workspace that it serves.
#[derive(Debug, PartialEq, Eq, Hash)]
pub struct InstanceKey {
    workspace: String,
}

impl View for InstanceKey {
    type V = Seq<char>;

    closed spec fn view(&self) -> Seq<char> {
        self.workspace@
    }
}

impl Clone for InstanceKey {
    fn clone(&self) -> (copy: Self)
        ensures
            copy@ == self@,
    {
        InstanceKey { workspace: self.workspace.clone() }
    }
}

/// The directory that a workspace name stands for: the path of a `file` address, behind its host
/// if it has one, or an absolute path as it is.
pub open spec fn workspace_dir(workspace: Seq<char>) -> Option<Seq<char>> {
    if starts_with(workspace, "file://"@) {
        let path = workspace.skip("file://"@.len() as int);
        match position(path, '/') {
            Some(at) => Some(path.skip(at)),
            None => None,
        }
    } else if workspace.len() > 0 && workspace[0] == '/' {
        Some(workspace)
    } else {
        None
    }
}

impl InstanceKey {
    pub fn new(workspace: String) -> (key: Self)
        ensures
            key@ == workspace@,
    {
        InstanceKey { workspace }
    }

    pub fn workspace(&self) -> (workspace: &str)
        ensures
            workspace@ == self@,
    {
        self.workspace.as_str()
    }

    /// The directory of the workspace, if its name gives one.
    pub fn workspace_dir(&self) -> (dir: Option<String>)
        ensures
            opt_text(dir) == workspace_dir(self@),
    {
        let chars = chars_of(self.workspace.as_str());
        let scheme = chars_of("file://");
        let len = chars.len();
        if has_prefix(&chars, &scheme) {
            let ghost path = self@.skip("file://"@.len() as int);
            assert(chars@.subrange(scheme@.len() as int, len as int) =~= path);
            return match find_char(&chars, scheme.len(), len, '/') {
                Some(at) => {
                    assert(chars@.subrange(at as int, len as int) =~= path.skip(
                        at - scheme@.len(),
                    ));
                    Some(string_of(&chars, at, len))
                },
                None => None,
            };
        }
        if len > 0 && chars[0] == '/' {
            return Some(self.workspace.clone());
        }
        None
    }
}

/// A client that is attached to an instance.
pub struct ClientHandle {
    pub id: u32,
}

/// Bytes from a client for its instance.
pub struct ClientMessage {
    pub client_id: u32,
    pub bytes: Vec<u8>,
}

/// A client's tie to the instance that it is bound to.
pub struct InstanceHandle {
    key: InstanceKey,
    pid: u32,
}

pub struct HandleView {
    pub key: Seq<char>,
    pub pid: u32,
}

impl View for InstanceHandle {
    type V = HandleView;

    closed spec fn view(&self) -> HandleView {
        HandleView { key: self.key@, pid: self.pid }
    }
}

impl Clone for InstanceHandle {
    fn clone(&self) -> (copy: Self)
        ensures
            copy@ == self@,
    {
        InstanceHandle { key: self.key.clone(), pid: self.pid }
    }
}

impl InstanceHandle {
    pub fn new(key: InstanceKey, pid: u32) -> (handle: Self)
        ensures
            handle@ == (HandleView { key: key@, pid }),
    {
        InstanceHandle { key, pid }
    }

    pub fn key(&self) -> (key: &InstanceKey)
        ensures
            key@ == self@.key,
    {
        &self.key
    }

    pub fn pid(&self) -> (pid: u32)
        ensures
            pid == self@.pid,
    {
        self.pid
    }
}

/// What the daemon knows of a running language server.
pub struct Instance {
    pid: u32,
    last_used: i64,
    active_client_id: u32,
    clients: ClientTable,
    req_id_mapper: ReqIdMapper,
    pinned: bool,
}

pub struct InstanceView {
    pub pid: u32,
    pub last_used: i64,
    pub active_client_id: u32,
    pub clients: Set<u32>,
    pub mapper: MapperView,
    pub pinned: bool,
}

impl View for Instance {
    type V = InstanceView;

    closed spec fn view(&self) -> InstanceView {
        InstanceView {
            pid: self.pid,
            last_used: self.last_used,
            active_client_id: self.active_client_id,
            clients: clients_in(self.clients),
            mapper: self.req_id_mapper@,
            pinned: self.pinned,
        }
    }
}

/// What is done with a message from a language server.
pub enum Delivery {
    /// No client is active: the message is dropped.
    NoActiveClient,
    /// The client that the message is for is not attached any more: the message is dropped.
    NotRegistered { client_id: u32 },
    Deliver { client_id: u32, frame: LspFrame },
}

pub enum DeliveryView {
    NoActiveClient,
    NotRegistered { client_id: u32 },
    Deliver { client_id: u32, frame: JsonView },
}

impl View for Delivery {
    type V = DeliveryView;

    open spec fn view(&self) -> DeliveryView {
        match self {
            Delivery::NoActiveClient => DeliveryView::NoActiveClient,
            Delivery::NotRegistered { client_id } => DeliveryView::NotRegistered {
                client_id: *client_id,
            },
            Delivery::Deliver { client_id, frame } => DeliveryView::Deliver {
                client_id: *client_id,
                frame: frame@,
            },
        }
    }
}

impl InstanceView {
    /// An instance that was just started.
    pub open spec fn started(pid: u32, now: i64) -> InstanceView {
        InstanceView {
            pid,
            last_used: now,
            active_client_id: 0,
            clients: Set::empty(),
            mapper: MapperView::fresh(),
            pinned: false,
        }
    }

    pub open spec fn with_client(self, client_id: u32) -> InstanceView {
        InstanceView { clients: self.clients.insert(client_id), ..self }
    }

    pub open spec fn without_client(self, client_id: u32) -> InstanceView {
        InstanceView { clients: self.clients.remove(client_id), ..self }
    }

    pub open spec fn with_active(self, client_id: u32) -> InstanceView {
        InstanceView { active_client_id: client_id, ..self }
    }

    pub open spec fn with_pin(self, pinned: bool) -> InstanceView {
        InstanceView { pinned, ..self }
    }

    /// The answer to an initialize request from what the language server answered before.
    pub open spec fn cached_initialize(self, request_id: JsonView) -> Option<JsonView> {
        match IdView::from_json(request_id) {
            Some(id) => self.mapper.cached_initialize(id),
            None => None,
        }
    }

    /// What becomes of bytes from a client: the client is the active one from then on, and a
    /// message is rewritten; bytes that hold no message go on as they are.
    pub open spec fn on_client_message(self, client_id: u32, bytes: Seq<u8>, now: i64) -> (
        InstanceView,
        Seq<u8>,
    ) {
        let used = InstanceView { active_client_id: client_id, last_used: now, ..self };
        match lsp_decoded(bytes).0 {
            Ok(Some(packet)) => {
                let (mapper, rewritten) = self.mapper.rewrite_client(client_id, packet);
                (
                    InstanceView { mapper, ..used },
                    framed(json_text(rewritten)),
                )
            },
            _ => (used, bytes),
        }
    }

    /// What becomes of a message from the language server.
    pub open spec fn on_server_message(self, packet: JsonView) -> (InstanceView, DeliveryView) {
        let (mapper, client_id, frame) = self.mapper.rewrite_ra(packet, self.active_client_id);
        (
            InstanceView { mapper, ..self },
            if client_id == 0 {
                DeliveryView::NoActiveClient
            } else if self.clients.contains(client_id) {
                DeliveryView::Deliver { client_id, frame }
            } else {
                DeliveryView::NotRegistered { client_id }
            },
        )
    }
}

impl Instance {
    /// An instance whose process was just started.
    pub fn new(pid: u32, now: i64) -> (instance: Self)
        ensures
            instance@ == InstanceView::started(pid, now),
    {
        Instance {
            pid,
            last_used: now,
            active_client_id: 0,
            clients: new_clients(),
            req_id_mapper: ReqIdMapper::new(),
            pinned: false,
        }
    }

    pub fn pid(&self) -> (pid: u32)
        ensures
            pid == self@.pid,
    {
        self.pid
    }

    /// When a client last sent something.
    pub fn last_used(&self) -> (last_used: i64)
        ensures
            last_used == self@.last_used,
    {
        self.last_used
    }

    pub fn is_pinned(&self) -> (pinned: bool)
        ensures
            pinned == self@.pinned,
    {
        self.pinned
    }

    /// How many clients are attached.
    pub fn client_count(&self) -> (count: usize)
        ensures
            count == self@.clients.len(),
            (count == 0) == (self@.clients == Set::<u32>::empty()),
    {
        count_clients(&self.clients)
    }

    pub fn attach_client(&mut self, client: ClientHandle)
        ensures
            final(self)@ == old(self)@.with_client(client.id),
    {
        insert_client(&mut self.clients, client);
    }

    /// Detaches a client; tells whether it was attached.
    pub fn detach_client(&mut self, client_id: u32) -> (detached: bool)
        ensures
            final(self)@ == old(self)@.without_client(client_id),
            detached == old(self)@.clients.contains(client_id),
    {
        remove_client(&mut self.clients, client_id)
    }

    pub fn set_active_client(&mut self, client_id: u32)
        ensures
            final(self)@ == old(self)@.with_active(client_id),
    {
        self.active_client_id = client_id;
    }

    pub fn set_pinned(&mut self, pinned: bool)
        ensures
            final(self)@ == old(self)@.with_pin(pinned),
    {
        self.pinned = pinned;
    }

    pub fn build_initialize_response_from_cache(&self, request_id: &Value) -> (response: Option<
        LspFrame,
    >)
        ensures
            opt_frame(response) == self@.cached_initialize(json_of(*request_id)),
    {
        match JsonRpcId::from_value(request_id) {
            Some(id) => self.req_id_mapper.initialize_response_from_cache(id),
            None => None,
        }
    }

    /// Takes bytes from a client and gives those that go to the language server.
    pub fn handle_client_msg_to_ra(&mut self, msg: ClientMessage, now: i64) -> (forwarded: Vec<u8>)
        requires
            bounds_fit(msg.bytes@),
        ensures
            (final(self)@, forwarded@) == old(self)@.on_client_message(
                msg.client_id,
                msg.bytes@,
                now,
            ),
    {
        self.active_client_id = msg.client_id;
        self.last_used = now;
        match decode_single_packet(msg.bytes.as_slice()) {
            Ok(Some(frame)) => {
                let rewritten = self.req_id_mapper.rewrite_client_packet(
                    msg.client_id,
                    frame,
                    self.pid,
                );
                match rewritten.to_bytes() {
                    Ok(bytes) => bytes,
                    Err(_) => msg.bytes,
                }
            },
            Ok(None) => msg.bytes,
            Err(_) => msg.bytes,
        }
    }

    /// Takes a message from the language server and finds the client that it goes to.
    pub fn forward_ra_to_active_client(&mut self, frame: LspFrame) -> (delivery: Delivery)
        ensures
            (final(self)@, delivery@) == old(self)@.on_server_message(frame@),
    {
        let active = self.active_client_id;
        match self.req_id_mapper.rewrite_ra_packet(frame, active, self.pid) {
            Ok(routed) => {
                if routed.client_id == 0 {
                    return Delivery::NoActiveClient;
                }
                if has_client(&self.clients, routed.client_id) {
                    Delivery::Deliver { client_id: routed.client_id, frame: routed.frame }
                } else {
                    Delivery::NotRegistered { client_id: routed.client_id }
                }
            },
            Err(_) => Delivery::NoActiveClient,
        }
    }
}

/// What is known of the process of an instance.
#[derive(Debug, Clone, Copy, PartialEq, Eq, Structural)]
pub enum ProcessState {
    Running,
    Exited,
    Unknown,
}

/// Whether an instance can be used: its input is open and its process runs.
pub fn is_healthy(input_closed: bool, process: ProcessState) -> (healthy: bool)
    ensures
        healthy == (!input_closed && process == ProcessState::Running),
{
    if input_closed {
        return false;
    }
    matches!(process, ProcessState::Running)
}

/// The directory of a workspace is an absolute path.
pub proof fn law_workspace_dir_is_absolute(workspace: Seq<char>)
    requires
        workspace_dir(workspace) is Some,
    ensures
        workspace_dir(workspace)->0.len() > 0,
        workspace_dir(workspace)->0[0] == '/',
{
    if starts_with(workspace, "file://"@) {
        lemma_position(workspace.skip("file://"@.len() as int), '/');
    }
}

/// An absolute path stands for itself, and so does the path of a `file` address without a host.
pub proof fn law_workspace_dir_of_path(path: Seq<char>)
    requires
        path.len() > 0,
        path[0] == '/',
    ensures
        workspace_dir(path) == Some(path),
        workspace_dir("file://"@ + path) == Some(path),
{
    reveal_strlit("file://");
    assert(!starts_with(path, "file://"@)) by {
        if starts_with(path, "file://"@) {
            assert(path.take(7)[0] == 'f');
        }
    }
    let address = "file://"@ + path;
    assert(address.take(7) =~= "file://"@);
    assert(address.skip(7) =~= path);
    assert(path.skip(0) =~= path);
}

/// A message of a client, sent as its text behind a header, reaches the language server with
/// nothing changed but its ids.
pub proof fn law_message_is_rewritten_on_its_way(
    instance: InstanceView,
    client_id: u32,
    message: JsonView,
    now: i64,
)
    requires
        parsed_json(json_text(message)) == Some(message),
        json_text(message).len() <= usize::MAX,
    ensures
        ({
            let (after, forwarded) = instance.on_client_message(
                client_id,
                framed(json_text(message)),
                now,
            );
            let (mapper, rewritten) = instance.mapper.rewrite_client(client_id, message);
            &&& after == (InstanceView {
                active_client_id: client_id,
                last_used: now,
                mapper,
                ..instance
            })
            &&& forwarded == framed(json_text(rewritten))
        }),
{
    let body = json_text(message);
    law_framed_decodes(message, body, Seq::empty());
    assert(framed(body) + Seq::<u8>::empty() =~= framed(body));
}

/// The answer to a request goes to the client that asked, under the id that it asked with,
/// whoever is active by then; where the client has left, it is dropped. `later` is the instance
/// when the answer comes, and `traffic` what passed in between.
pub proof fn law_answer_goes_to_the_asker(
    instance: InstanceView,
    client_id: u32,
    bytes: Seq<u8>,
    now: i64,
    request: JsonView,
    traffic: Seq<Traffic>,
    later: InstanceView,
    response: JsonView,
)
    requires
        client_id != 0,
        instance.mapper.consistent(),
        instance.mapper.next + 1 + traffic.len() <= u64::MAX,
        lsp_decoded(bytes).0 == Ok::<Option<JsonView>, ErrorView>(Some(request)),
        request.is_request(),
        request.id() is Some,
        later.mapper == instance.on_client_message(client_id, bytes, now).0.mapper.after_all(
            traffic,
        ),
        response.is_response(),
        response.id() == instance.mapper.rewrite_client(client_id, request).1.id(),
        forall|i: int|
            0 <= i < traffic.len() ==> !((#[trigger] traffic[i]) matches Traffic::FromServer {
                packet,
                active,
            } && packet.is_response() && packet.id() == response.id()),
    ensures
        later.on_server_message(response).1 == if later.clients.contains(client_id) {
            DeliveryView::Deliver { client_id, frame: response.with_id(request.id()->0) }
        } else {
            DeliveryView::NotRegistered { client_id }
        },
{
    law_response_reaches_its_client(
        instance.mapper,
        client_id,
        request,
        traffic,
        response,
        later.active_client_id,
    );
}

/// Whoever sends something is the active client from then on: what the language server says
/// unasked goes to that client, as long as it is attached.
pub proof fn law_unasked_messages_go_to_the_active_client(
    instance: InstanceView,
    client_id: u32,
    bytes: Seq<u8>,
    now: i64,
    packet: JsonView,
)
    requires
        client_id != 0,
        instance.clients.contains(client_id),
        !packet.is_response(),
    ensures
        instance.on_client_message(client_id, bytes, now).0.on_server_message(packet).1
            == (DeliveryView::Deliver { client_id, frame: packet }),
{
}

/// Nothing is delivered to a client that is not attached.
pub proof fn law_delivery_is_to_an_attached_client(instance: InstanceView, packet: JsonView)
    ensures
        instance.on_server_message(packet).1 matches DeliveryView::Deliver { client_id, frame }
            ==> instance.clients.contains(client_id),
{
}

/// Bytes that hold no message reach the language server as they are.
pub proof fn law_other_bytes_pass(instance: InstanceView, client_id: u32, bytes: Seq<u8>, now: i64)
    requires
        !(lsp_decoded(bytes).0 matches Ok(Some(_))),
    ensures
        instance.on_client_message(client_id, bytes, now).1 == bytes,
        instance.on_client_message(client_id, bytes, now).0.mapper == instance.mapper,
{
}

/// A client that leaves takes nothing with it: the process, the last use, the active client, the
/// pin, the next id, the waiting requests, their routes and the remembered answer to initialize
/// stay as they were, and so do all other clients.
pub proof fn law_leaving_takes_only_the_client(
    instance: InstanceView,
    client_id: u32,
    other: u32,
)
    ensures
        ({
            let left = instance.without_client(client_id);
            &&& left.clients.contains(other) <==> instance.clients.contains(other) && other
                != client_id
            &&& left.pid == instance.pid
            &&& left.last_used == instance.last_used
            &&& left.active_client_id == instance.active_client_id
            &&& left.pinned == instance.pinned
            &&& left.mapper.next == instance.mapper.next
            &&& left.mapper.pending == instance.mapper.pending
            &&& left.mapper.routes == instance.mapper.routes
            &&& left.mapper.cache == instance.mapper.cache
        }),
{
}

/// A client that comes is added to those that are there, and nothing else changes; nor does it
/// where another client is made the active one, or the pin is set.
pub proof fn law_coming_adds_only_the_client(
    instance: InstanceView,
    client_id: u32,
    other: u32,
    pinned: bool,
)
    ensures
        ({
            let joined = instance.with_client(client_id);
            &&& joined.clients.contains(other) <==> instance.clients.contains(other) || other
                == client_id
            &&& joined.pid == instance.pid
            &&& joined.last_used == instance.last_used
            &&& joined.active_client_id == instance.active_client_id
            &&& joined.pinned == instance.pinned
            &&& joined.mapper == instance.mapper
        }),
        ({
            let active = instance.with_active(client_id);
            &&& active.active_client_id == client_id
            &&& active.clients == instance.clients
            &&& active.pid == instance.pid
            &&& active.last_used == instance.last_used
            &&& active.pinned == instance.pinned
            &&& active.mapper == instance.mapper
        }),
        ({
            let pin = instance.with_pin(pinned);
            &&& pin.pinned == pinned
            &&& pin.clients == instance.clients
            &&& pin.pid == instance.pid
            &&& pin.last_used == instance.last_used
            &&& pin.active_client_id == instance.active_client_id
            &&& pin.mapper == instance.mapper
        }),
{
}

/// An instance that was just started has no client, no pin, nothing waiting and nothing remembered,
/// and counts as used when it started.
pub proof fn law_started_instance_is_fresh(
    pid: u32,
    now: i64,
    client_id: u32,
    number: i64,
    route: (u32, IdView),
)
    ensures
        ({
            let instance = InstanceView::started(pid, now);
            &&& instance.pid == pid
            &&& instance.last_used == now
            &&& instance.active_client_id == 0
            &&& !instance.clients.contains(client_id)
            &&& !instance.pinned
            &&& instance.mapper.next == 1
            &&& !instance.mapper.pending.contains_key(number)
            &&& !instance.mapper.routes.contains_key(route)
            &&& instance.mapper.cache is None
        }),
{
}

/// Whatever a client sends makes it the active one and the instance used just now; who is attached,
/// the process and the pin stay. A message goes through the ids of requests and nothing else.
pub proof fn law_sending_marks_the_instance_used(
    instance: InstanceView,
    client_id: u32,
    bytes: Seq<u8>,
    now: i64,
    message: JsonView,
)
    ensures
        ({
            let (after, forwarded) = instance.on_client_message(client_id, bytes, now);
            &&& after.active_client_id == client_id
            &&& after.last_used == now
            &&& after.clients == instance.clients
            &&& after.pid == instance.pid
            &&& after.pinned == instance.pinned
            &&& lsp_decoded(bytes).0 == Ok::<Option<JsonView>, ErrorView>(Some(message)) ==> (
            after.mapper == instance.mapper.rewrite_client(client_id, message).0 && forwarded
                == framed(json_text(instance.mapper.rewrite_client(client_id, message).1)))
        }),
{
}

/// What the language server says changes neither who is attached nor who is active, nor when the
/// instance was used.
pub proof fn law_server_messages_leave_the_clients(instance: InstanceView, packet: JsonView)
    ensures
        ({
            let after = instance.on_server_message(packet).0;
            &&& after.clients == instance.clients
            &&& after.active_client_id == instance.active_client_id
            &&& after.last_used == instance.last_used
            &&& after.pid == instance.pid
            &&& after.pinned == instance.pinned
            &&& after.mapper == instance.mapper.rewrite_ra(packet, instance.active_client_id).0
        }),
{
}

/// The answer to a waiting request is delivered to the client that asked, under its own id and
/// otherwise as it is, where that client is attached; else it is dropped, and goes to no other.
pub proof fn law_answer_is_for_the_asker_alone(
    instance: InstanceView,
    members: Map<Seq<char>, JsonView>,
    number: i64,
)
    requires
        answers(instance.mapper, members, number),
        instance.mapper.pending[number].client_id != 0,
    ensures
        ({
            let request = instance.mapper.pending[number];
            let own_id = match request.raw_req_id {
                IdView::Number(own) => JsonView::Number(NumberView::Integer(own as int)),
                IdView::Text(own) => JsonView::Text(own),
            };
            instance.on_server_message(JsonView::Object(members)).1 == if instance.clients.contains(
                request.client_id,
            ) {
                DeliveryView::Deliver {
                    client_id: request.client_id,
                    frame: JsonView::Object(members.insert("id"@, own_id)),
                }
            } else {
                DeliveryView::NotRegistered { client_id: request.client_id }
            }
        }),
{
    law_answer_is_given_back_as_it_is(
        instance.mapper,
        members,
        number,
        instance.active_client_id,
    );
}

/// A message that answers nothing is delivered as it is to the active client where it is attached,
/// and else dropped.
pub proof fn law_unasked_message_is_for_the_active_client_alone(
    instance: InstanceView,
    packet: JsonView,
)
    requires
        packet matches JsonView::Object(members) ==> forall|number: i64|
            !answers(instance.mapper, members, number),
    ensures
        instance.on_server_message(packet).1 == if instance.active_client_id == 0 {
            DeliveryView::NoActiveClient
        } else if instance.clients.contains(instance.active_client_id) {
            DeliveryView::Deliver { client_id: instance.active_client_id, frame: packet }
        } else {
            DeliveryView::NotRegistered { client_id: instance.active_client_id }
        },
{
    law_other_server_messages_pass(instance.mapper, packet, instance.active_client_id);
}

/// An answer to initialize is given from memory under an id that is an integer or a text, and under
/// no other; without a memory it is given to nobody.
pub proof fn law_initialize_from_memory_takes_an_id(
    instance: InstanceView,
    members: Map<Seq<char>, JsonView>,
    request_id: JsonView,
    id: IdView,
)
    ensures
        instance.mapper.cache is None ==> instance.cached_initialize(request_id) is None,
        (forall|other: IdView| !names_id(request_id, other)) ==> instance.cached_initialize(
            request_id,
        ) is None,
        instance.mapper.cache == Some(JsonView::Object(members)) && names_id(request_id, id)
            ==> instance.cached_initialize(request_id) == Some(
            JsonView::Object(members.insert("id"@, request_id)),
        ),
{
    if let Some(found) = IdView::from_json(request_id) {
        assert(names_id(request_id, found));
    }
}

/// Behind `file://`, a host is passed over: the directory starts at the first slash. A name that is
/// neither such an address nor an absolute path stands for no directory.
pub proof fn law_workspace_dir_passes_over_the_host(host: Seq<char>, path: Seq<char>)
    requires
        forall|i: int| 0 <= i < host.len() ==> host[i] != '/',
    ensures
        path.len() > 0 && path[0] == '/' ==> workspace_dir("file://"@ + host + path) == Some(path),
        workspace_dir("file://"@ + host) is None,
        workspace_dir(host) is None || starts_with(host, "file://"@),
{
    reveal_strlit("file://");
    assert("file://"@.len() == 7);
    let bare = "file://"@ + host;
    assert(bare.take(7) =~= "file://"@);
    assert(bare.skip(7) =~= host);
    lemma_position(host, '/');
    if path.len() > 0 && path[0] == '/' {
        let address = "file://"@ + host + path;
        let rest = address.skip(7);
        assert(address.take(7) =~= "file://"@);
        assert(rest =~= host + path);
        assert(rest[host.len() as int] == '/');
        assert forall|i: int| 0 <= i < host.len() implies #[trigger] rest[i] != '/' by {
            assert(rest[i] == host[i]);
        }
        lemma_position_at(rest, host.len() as int);
        assert(rest.skip(host.len() as int) =~= path);
    }
}

} // verus!
