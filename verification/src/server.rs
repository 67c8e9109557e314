//! The daemon's side of a client connection: which messages it answers itself, which it hands to
//! a language server, and which it drops.

use vstd::prelude::*;
use vstd::string::*;

use crate::config::ProjectConfig;
use crate::error::Error;
use crate::instance::{HandleView, InstanceHandle, InstanceKey};
use crate::json::{json_text, member, JsonView};
use crate::manager::{
    idle_secs_fit, law_clean_ends_what_is_not_needed, law_list_names_what_ended,
    law_memory_is_of_the_workspace, law_pin_is_set_for_the_process_alone, lists_picked, reports,
    tells_pins, with_pins, Choice, InstanceManager, ManagerView,
};
use crate::mapper::names_id;
use crate::protocol::lsp::{
    bounds_fit, empty_response, framed, law_empty_response_has_three_members,
    law_other_messages_name_no_workspace, law_workspace_is_what_initialize_names, names_folder,
    opt_frame, IdView, LspFrame,
};
use crate::protocol::msg::{ControlMessage, ServerStatus};

verus! {

/// What the daemon is started with.
pub struct Options {
    pub server_addr: String,
    pub instance_timeout: std::time::Duration,
    pub gc_interval: std::time::Duration,
    pub lsp_server_path: Option<String>,
    pub path_prepend: Vec<String>,
    pub project_overrides: Vec<(String, ProjectConfig)>,
}

/// What the daemon knows of a client connection.
pub struct ClientSessionState {
    instance_handle: Option<InstanceHandle>,
    workspace_label: String,
    reusing_existing_instance: bool,
    initialize_replied_from_cache: bool,
}

pub struct SessionView {
    pub handle: Option<HandleView>,
    pub label: Seq<char>,
    pub reused: bool,
    pub replied: bool,
}

pub open spec fn opt_handle(handle: Option<InstanceHandle>) -> Option<HandleView> {
    match handle {
        Some(handle) => Some(handle@),
        None => None,
    }
}

impl View for ClientSessionState {
    type V = SessionView;

    closed spec fn view(&self) -> SessionView {
        SessionView {
            handle: opt_handle(self.instance_handle),
            label: self.workspace_label@,
            reused: self.reusing_existing_instance,
            replied: self.initialize_replied_from_cache,
        }
    }
}

/// What is done with a message from a client.
pub enum FrameAction {
    /// The client has to be bound to the instance of a workspace; then the message comes again.
    Bind { key: InstanceKey },
    /// The daemon answers the client itself.
    Reply { frame: LspFrame },
    /// The message is dropped.
    Ignore,
    /// The bytes go to the language server.
    Forward { bytes: Vec<u8> },
}

pub enum FrameActionView {
    Bind { key: Seq<char> },
    Reply { frame: JsonView },
    Ignore,
    Forward { bytes: Seq<u8> },
}

impl View for FrameAction {
    type V = FrameActionView;

    open spec fn view(&self) -> FrameActionView {
        match self {
            FrameAction::Bind { key } => FrameActionView::Bind { key: key@ },
            FrameAction::Reply { frame } => FrameActionView::Reply { frame: frame@ },
            FrameAction::Ignore => FrameActionView::Ignore,
            FrameAction::Forward { bytes } => FrameActionView::Forward { bytes: bytes@ },
        }
    }
}

/// The answer to a shutdown request, which keeps the id whatever it is.
pub open spec fn shutdown_answer(frame: JsonView) -> Option<JsonView> {
    if frame.is_request_method("shutdown"@) {
        Some(JsonView::empty_response(frame.member("id"@)->0))
    } else {
        None
    }
}

impl SessionView {
    /// A connection that nothing came over yet.
    pub open spec fn fresh() -> SessionView {
        SessionView { handle: None, label: "<unknown>"@, reused: false, replied: false }
    }

    pub open spec fn bound(self, handle: HandleView, reused: bool) -> SessionView {
        SessionView { handle: Some(handle), reused, ..self }
    }

    /// The workspace that the first message asks for.
    pub open spec fn wanted_workspace(frame: JsonView) -> Seq<char> {
        match frame.workspace_key() {
            Some(key) => key,
            None => "default-workspace"@,
        }
    }

    /// The answer to an initialize request of a client that shares an instance.
    pub open spec fn cached_answer(
        self,
        handle: HandleView,
        manager: ManagerView,
        frame: JsonView,
    ) -> Option<JsonView> {
        if self.reused && frame.is_request_method("initialize"@) {
            manager.cached_initialize(handle.key, frame.member("id"@)->0)
        } else {
            None
        }
    }

    /// What becomes of a message of a client that is bound.
    pub open spec fn on_bound_frame(
        self,
        handle: HandleView,
        manager: ManagerView,
        frame: JsonView,
    ) -> (SessionView, FrameActionView) {
        match self.cached_answer(handle, manager, frame) {
            Some(answer) => (
                SessionView { replied: true, ..self },
                FrameActionView::Reply { frame: answer },
            ),
            None => if (self.replied && frame.is_method("initialized"@)) || frame.is_method(
                "exit"@,
            ) {
                (self, FrameActionView::Ignore)
            } else {
                match shutdown_answer(frame) {
                    Some(answer) => (self, FrameActionView::Reply { frame: answer }),
                    None => (self, FrameActionView::Forward { bytes: framed(json_text(frame)) }),
                }
            },
        }
    }

    /// What becomes of a message of a client.
    pub open spec fn on_frame(self, manager: ManagerView, frame: JsonView) -> (
        SessionView,
        FrameActionView,
    ) {
        match self.handle {
            None => {
                let key = SessionView::wanted_workspace(frame);
                (SessionView { label: key, ..self }, FrameActionView::Bind { key })
            },
            Some(handle) => self.on_bound_frame(handle, manager, frame),
        }
    }
}

impl Default for ClientSessionState {
    fn default() -> (session: Self)
        ensures
            session@ == SessionView::fresh(),
    {
        ClientSessionState {
            instance_handle: None,
            workspace_label: "<unknown>".to_string(),
            reusing_existing_instance: false,
            initialize_replied_from_cache: false,
        }
    }
}

/// Builds the answer to a shutdown request.
pub fn build_shutdown_response(packet: &LspFrame) -> (response: Option<LspFrame>)
    ensures
        opt_frame(response) == shutdown_answer(packet@),
{
    if !packet.is_method("shutdown") {
        return None;
    }
    match member(packet.as_json(), "id") {
        Some(id) => Some(LspFrame::new(empty_response(id.clone()))),
        None => None,
    }
}

impl ClientSessionState {
    /// The workspace that the client asked for, to tell sessions apart in a log.
    pub fn workspace_label(&self) -> (label: &str)
        ensures
            label@ == self@.label,
    {
        self.workspace_label.as_str()
    }

    /// The instance that the client is bound to.
    pub fn handle(&self) -> (handle: Option<&InstanceHandle>)
        ensures
            match handle {
                Some(handle) => self@.handle == Some(handle@),
                None => self@.handle is None,
            },
    {
        match &self.instance_handle {
            Some(handle) => Some(handle),
            None => None,
        }
    }

    /// Binds the client to an instance; `reused` tells whether it ran before.
    pub fn bind(&mut self, handle: InstanceHandle, reused: bool)
        ensures
            final(self)@ == old(self)@.bound(handle@, reused),
    {
        self.instance_handle = Some(handle);
        self.reusing_existing_instance = reused;
    }

    /// Ends the session: the client leaves the instance that it is bound to, which goes on
    /// running.
    pub fn close(self, manager: &mut InstanceManager, client_id: u32)
        ensures
            final(manager)@ == match self@.handle {
                Some(handle) => old(manager)@.detach(handle.key, client_id),
                None => old(manager)@,
            },
    {
        if let Some(handle) = &self.instance_handle {
            manager.detach_client(handle.key(), client_id);
        }
    }
}

/// Decides what is done with a message from a client. Bytes to forward have a length that can be
/// reckoned with.
pub fn do_process_lsp_frame(
    frame: &LspFrame,
    manager: &InstanceManager,
    session: &mut ClientSessionState,
) -> (action: Result<FrameAction, Error>)
    ensures
        action is Ok,
        (final(session)@, action->Ok_0@) == old(session)@.on_frame(manager@, frame@),
        action matches Ok(FrameAction::Forward { bytes }) ==> bounds_fit(bytes@),
{
    let key = match &session.instance_handle {
        None => {
            let label = match frame.workspace_key() {
                Some(key) => key,
                None => "default-workspace".to_string(),
            };
            session.workspace_label = label.clone();
            return Ok(FrameAction::Bind { key: InstanceKey::new(label) });
        },
        Some(handle) => handle.key().clone(),
    };
    if session.reusing_existing_instance && frame.is_request_method("initialize") {
        if let Some(request_id) = member(frame.as_json(), "id") {
            if let Some(answer) = manager.build_initialize_response_from_cache(&key, request_id) {
                session.initialize_replied_from_cache = true;
                return Ok(FrameAction::Reply { frame: answer });
            }
        }
    }
    if session.initialize_replied_from_cache && frame.is_method("initialized") {
        return Ok(FrameAction::Ignore);
    }
    if frame.is_method("exit") {
        return Ok(FrameAction::Ignore);
    }
    if let Some(answer) = build_shutdown_response(frame) {
        return Ok(FrameAction::Reply { frame: answer });
    }
    match frame.to_bytes() {
        Ok(bytes) => Ok(FrameAction::Forward { bytes }),
        Err(error) => Err(error),
    }
}

/// Whether a control message makes the instances of `before` those of `after` and is given the
/// answer.
pub open spec fn settles(
    message: ControlMessage,
    before: ManagerView,
    now: i64,
    healthy_pids: Seq<u32>,
    after: ManagerView,
    answer: Option<ControlMessage>,
) -> bool {
    match message {
        ControlMessage::StatusRequest => {
            &&& after == before
            &&& answer matches Some(ControlMessage::StatusResponse { status, pins })
            &&& reports(status.instances@, before.instances, now, healthy_pids)
            &&& tells_pins(status.instances@, pins@, before.instances)
        },
        ControlMessage::ClearRequest { force } => {
            let choice = if force {
                Choice::Everything
            } else {
                Choice::Unused
            };
            &&& after == (ManagerView { instances: choice.leaves(before.instances), ..before })
            &&& answer matches Some(ControlMessage::ClearResponse { cleared })
            &&& lists_picked(cleared@, before.instances, choice)
        },
        ControlMessage::PinRequest { pid, pinned } => {
            &&& after == (ManagerView {
                instances: with_pins(before.instances, pid, pinned),
                ..before
            })
            &&& answer matches Some(ControlMessage::PinResponse { found })
            &&& found == exists|workspace: Seq<char>| #[trigger]
                before.instances.contains_key(workspace) && before.instances[workspace].pid == pid
        },
        _ => after == before && answer is None,
    }
}

/// Carries out a control message and gives the answer, if it has one. `healthy_pids` are the
/// processes that are in order. Of the instances that an answer lists as cleared, the processes
/// are left to be ended.
pub fn process_control(
    manager: &mut InstanceManager,
    message: ControlMessage,
    now: i64,
    healthy_pids: &Vec<u32>,
) -> (answer: Option<ControlMessage>)
    requires
        message is StatusRequest ==> idle_secs_fit(old(manager)@.instances, now),
    ensures
        settles(message, old(manager)@, now, healthy_pids@, final(manager)@, answer),
{
    match message {
        ControlMessage::StatusRequest => {
            let instances = manager.status(now, healthy_pids);
            let pins = manager.pins(&instances);
            Some(ControlMessage::StatusResponse { status: ServerStatus { instances }, pins })
        },
        ControlMessage::ClearRequest { force } => {
            let cleared = if force {
                manager.clear_all()
            } else {
                manager.clear_idle()
            };
            proof {
                assert(Choice::Everything.leaves(old(manager)@.instances) =~= Map::empty());
            }
            Some(ControlMessage::ClearResponse { cleared })
        },
        ControlMessage::PinRequest { pid, pinned } => {
            let found = manager.set_pinned(pid, pinned);
            Some(ControlMessage::PinResponse { found })
        },
        _ => None,
    }
}

/// The first message of a client binds it, and only the first.
pub proof fn law_first_message_binds(session: SessionView, manager: ManagerView, frame: JsonView)
    ensures
        session.handle is None <==> session.on_frame(manager, frame).1 is Bind,
        session.on_frame(manager, frame).0.handle == session.handle,
{
}

/// The workspace that a client is bound to is the one that its first message asks for, and the
/// same for all clients whose first message asks for none.
pub proof fn law_client_is_bound_to_its_workspace(
    session: SessionView,
    manager: ManagerView,
    frame: JsonView,
)
    requires
        session.handle is None,
    ensures
        session.on_frame(manager, frame).1 == (FrameActionView::Bind {
            key: match frame.workspace_key() {
                Some(key) => key,
                None => "default-workspace"@,
            },
        }),
{
}

proof fn lemma_methods_differ()
    ensures
        "initialize"@ != "initialized"@,
        "initialize"@ != "exit"@,
        "initialize"@ != "shutdown"@,
        "initialized"@ != "exit"@,
        "initialized"@ != "shutdown"@,
        "exit"@ != "shutdown"@,
{
    reveal_strlit("initialize");
    reveal_strlit("initialized");
    reveal_strlit("exit");
    reveal_strlit("shutdown");
    assert("initialize"@.len() == 10);
    assert("initialized"@.len() == 11);
    assert("exit"@.len() == 4);
    assert("shutdown"@.len() == 8);
}

/// No client can make the language server of others exit: the notification is dropped.
pub proof fn law_exit_is_dropped(session: SessionView, manager: ManagerView, frame: JsonView)
    requires
        session.handle is Some,
        frame.is_method("exit"@),
    ensures
        session.on_frame(manager, frame) == (
            session,
            FrameActionView::Ignore,
        ),
{
    lemma_methods_differ();
}

/// No client can shut down the language server of others: the daemon answers the request itself,
/// with no result and the id of the request.
pub proof fn law_shutdown_is_answered(session: SessionView, manager: ManagerView, frame: JsonView)
    requires
        session.handle is Some,
        frame.is_request_method("shutdown"@),
    ensures
        session.on_frame(manager, frame) == (
            session,
            FrameActionView::Reply { frame: JsonView::empty_response(frame.member("id"@)->0) },
        ),
{
    lemma_methods_differ();
}

/// A client that shares an instance whose language server has answered initialize before is given
/// that answer, under the id that it asks with; the language server sees neither the request nor
/// the notification that follows it.
pub proof fn law_shared_instance_is_initialized_once(
    session: SessionView,
    manager: ManagerView,
    handle: HandleView,
    frame: JsonView,
    later: ManagerView,
    next: JsonView,
)
    requires
        session.handle == Some(handle),
        session.reused,
        manager.instances.contains_key(handle.key),
        manager.instances[handle.key].mapper.cache is Some,
        frame.is_request_method("initialize"@),
        frame.id() is Some,
        next.is_method("initialized"@),
    ensures
        ({
            let answer = manager.instances[handle.key].mapper.cache->0;
            let (replied, action) = session.on_frame(manager, frame);
            &&& action == (FrameActionView::Reply { frame: answer.with_id(frame.id()->0) })
            &&& replied.on_frame(later, next) == (
                replied,
                FrameActionView::Ignore,
            )
        }),
{
    lemma_methods_differ();
}

/// The client that an instance was started for is not given remembered answers: its initialize
/// request and the notification that follows it go to the language server.
pub proof fn law_first_client_initializes(
    session: SessionView,
    manager: ManagerView,
    frame: JsonView,
)
    requires
        session.handle is Some,
        !session.reused,
        !session.replied,
        frame.is_method("initialize"@) || frame.is_method("initialized"@),
    ensures
        session.on_frame(manager, frame) == (
            session,
            FrameActionView::Forward { bytes: framed(json_text(frame)) },
        ),
{
    lemma_methods_differ();
}

/// Any other message goes to the language server as it is.
pub proof fn law_other_messages_are_forwarded(
    session: SessionView,
    manager: ManagerView,
    frame: JsonView,
)
    requires
        session.handle is Some,
        !frame.is_method("initialize"@),
        !frame.is_method("initialized"@),
        !frame.is_method("exit"@),
        !frame.is_request_method("shutdown"@),
    ensures
        session.on_frame(manager, frame) == (
            session,
            FrameActionView::Forward { bytes: framed(json_text(frame)) },
        ),
{
}

/// A message names a method where it has a string of this name as its method.
pub open spec fn calls(members: Map<Seq<char>, JsonView>, method: Seq<char>) -> bool {
    members.contains_key("method"@) && members["method"@] == JsonView::Text(method)
}

/// A connection that nothing came over is bound to nothing, has had no answer, and is told apart in
/// the log by no workspace.
pub proof fn law_fresh_session_is_unbound(handle: HandleView)
    ensures
        SessionView::fresh().handle != Some(handle),
        !SessionView::fresh().reused,
        !SessionView::fresh().replied,
{
}

/// To bind a client sets its instance and whether that ran before, and nothing else.
pub proof fn law_binding_sets_the_instance_alone(
    session: SessionView,
    handle: HandleView,
    reused: bool,
)
    ensures
        session.bound(handle, reused).handle == Some(handle),
        session.bound(handle, reused).reused == reused,
        session.bound(handle, reused).label == session.label,
        session.bound(handle, reused).replied == session.replied,
{
}

/// A message changes what is known of a client in two ways only: the first one names its workspace,
/// and one that is answered from memory is remembered to have been.
pub proof fn law_message_changes_little_of_the_session(
    session: SessionView,
    manager: ManagerView,
    frame: JsonView,
)
    ensures
        ({
            let (after, action) = session.on_frame(manager, frame);
            &&& after.handle == session.handle
            &&& after.reused == session.reused
            &&& session.handle is Some ==> after.label == session.label
            &&& action matches FrameActionView::Bind { key } ==> after.label == key
            &&& session.replied ==> after.replied
            &&& after.replied && !session.replied ==> action is Reply && session.reused
        }),
{
}

/// The first message of a client asks for the workspace that it names as initialize, or for the
/// default one where it names none; it is neither answered nor forwarded before the client is
/// bound.
pub proof fn law_first_message_names_the_workspace(
    session: SessionView,
    manager: ManagerView,
    members: Map<Seq<char>, JsonView>,
    params: Map<Seq<char>, JsonView>,
    key: Seq<char>,
)
    requires
        session.handle is None,
    ensures
        calls(members, "initialize"@) && members.contains_key("params"@) && members["params"@]
            == JsonView::Object(params) && names_folder(params, key) ==> session.on_frame(
            manager,
            JsonView::Object(members),
        ).1 == (FrameActionView::Bind { key }),
        !calls(members, "initialize"@) ==> session.on_frame(manager, JsonView::Object(members)).1
            == (FrameActionView::Bind { key: "default-workspace"@ }),
{
    if calls(members, "initialize"@) && members.contains_key("params"@) && members["params"@]
        == JsonView::Object(params) {
        law_workspace_is_what_initialize_names(members, params, key);
    } else {
        if !calls(members, "initialize"@) {
            law_other_messages_name_no_workspace(members);
        }
    }
}

/// A shutdown request is answered by the daemon, whatever instance the client is bound to, with a
/// result of null, and with its own id, of whatever sort that is.
pub proof fn law_shutdown_gets_a_null_result(
    session: SessionView,
    manager: ManagerView,
    members: Map<Seq<char>, JsonView>,
    key: Seq<char>,
)
    requires
        session.handle is Some,
        calls(members, "shutdown"@),
        members.contains_key("id"@),
    ensures
        session.on_frame(manager, JsonView::Object(members)).0 == session,
        session.on_frame(manager, JsonView::Object(members)).1 matches FrameActionView::Reply {
            frame: JsonView::Object(answer),
        } && (answer.contains_key(key) <==> key == "jsonrpc"@ || key == "id"@ || key == "result"@)
            && answer["jsonrpc"@] == JsonView::Text("2.0"@) && answer["id"@] == members["id"@]
            && answer["result"@] == JsonView::Null,
{
    lemma_methods_differ();
    law_empty_response_has_three_members(members["id"@], key);
}

/// A client that shares an instance is given the remembered answer to initialize with nothing
/// changed but the id, which is the one that it asked with.
pub proof fn law_shared_client_gets_the_remembered_answer(
    session: SessionView,
    manager: ManagerView,
    handle: HandleView,
    members: Map<Seq<char>, JsonView>,
    answer: Map<Seq<char>, JsonView>,
    id: IdView,
)
    requires
        session.handle == Some(handle),
        session.reused,
        manager.instances.contains_key(handle.key),
        manager.instances[handle.key].mapper.cache == Some(JsonView::Object(answer)),
        calls(members, "initialize"@),
        members.contains_key("id"@),
        names_id(members["id"@], id),
    ensures
        ({
            let (after, action) = session.on_frame(manager, JsonView::Object(members));
            &&& action == (FrameActionView::Reply {
                frame: JsonView::Object(answer.insert("id"@, members["id"@])),
            })
            &&& after.replied
        }),
{
    law_memory_is_of_the_workspace(manager, handle.key, members["id"@], answer, id);
}

/// Where nothing is remembered, or the client does not share an instance, initialize goes to the
/// language server, and so does initialized where initialize did.
pub proof fn law_initialize_without_memory_is_forwarded(
    session: SessionView,
    manager: ManagerView,
    handle: HandleView,
    members: Map<Seq<char>, JsonView>,
)
    requires
        session.handle == Some(handle),
    ensures
        ({
            let message = JsonView::Object(members);
            let forwarded = FrameActionView::Forward { bytes: framed(json_text(message)) };
            let unremembered = !manager.instances.contains_key(handle.key)
                || manager.instances[handle.key].mapper.cache is None || forall|id: IdView|
                !names_id(members["id"@], id);
            &&& calls(members, "initialize"@) && (!session.reused || unremembered
                || !members.contains_key("id"@)) ==> session.on_frame(manager, message) == (
                session,
                forwarded,
            )
            &&& calls(members, "initialized"@) && !session.replied ==> session.on_frame(
                manager,
                message,
            ) == (session, forwarded)
            &&& calls(members, "initialized"@) && session.replied ==> session.on_frame(
                manager,
                message,
            ) == (session, FrameActionView::Ignore)
        }),
{
    lemma_methods_differ();
    let id = IdView::from_json(members["id"@]);
    assert(id is Some ==> names_id(members["id"@], id->0));
}

/// A bound client's exit is dropped, with an id or without one; a shutdown without an id, which is
/// no request, and a message of any other method go on as they are, whatever else they hold.
pub proof fn law_only_exit_and_shutdown_are_kept_back(
    session: SessionView,
    manager: ManagerView,
    members: Map<Seq<char>, JsonView>,
)
    requires
        session.handle is Some,
        !calls(members, "initialize"@),
        !calls(members, "initialized"@),
    ensures
        ({
            let message = JsonView::Object(members);
            let (after, action) = session.on_frame(manager, message);
            &&& after == session
            &&& action is Ignore <==> calls(members, "exit"@)
            &&& action is Reply <==> calls(members, "shutdown"@) && members.contains_key("id"@)
            &&& !calls(members, "exit"@) && !(calls(members, "shutdown"@) && members.contains_key(
                "id"@,
            )) ==> action == (FrameActionView::Forward { bytes: framed(json_text(message)) })
        }),
{
    lemma_methods_differ();
}

/// To ask for the status changes nothing, and the answer tells of every instance what holds of it,
/// in turn also whether it is pinned.
pub proof fn law_status_request_changes_nothing(
    before: ManagerView,
    now: i64,
    healthy_pids: Seq<u32>,
    after: ManagerView,
    answer: Option<ControlMessage>,
)
    requires
        settles(ControlMessage::StatusRequest, before, now, healthy_pids, after, answer),
        idle_secs_fit(before.instances, now),
    ensures
        after == before,
        answer matches Some(ControlMessage::StatusResponse { status, pins }) && pins@.len()
            == status.instances@.len() && (forall|i: int|
            0 <= i < pins@.len() ==> {
                let told = #[trigger] status.instances@[i];
                let instance = before.instances[told.workspace@];
                &&& before.instances.contains_key(told.workspace@)
                &&& pins@[i] == instance.pinned
                &&& told.pid == instance.pid
                &&& told.idle_secs + instance.last_used == now
            }) && (forall|workspace: Seq<char>| #[trigger]
            before.instances.contains_key(workspace) ==> exists|i: int|
                0 <= i < pins@.len() && (#[trigger] status.instances@[i]).workspace@ == workspace),
{
    if let Some(ControlMessage::StatusResponse { status, pins }) = answer {
        assert forall|i: int| 0 <= i < pins@.len() implies {
            let told = #[trigger] status.instances@[i];
            let instance = before.instances[told.workspace@];
            &&& before.instances.contains_key(told.workspace@)
            &&& pins@[i] == instance.pinned
            &&& told.pid == instance.pid
            &&& told.idle_secs + instance.last_used == now
        } by {
            assert(status.instances@[i]@.workspace == status.instances@[i].workspace@);
        }
        assert forall|workspace: Seq<char>| #[trigger]
            before.instances.contains_key(workspace) implies exists|i: int|
            0 <= i < pins@.len() && (#[trigger] status.instances@[i]).workspace@ == workspace by {
            let i = choose|i: int|
                0 <= i < status.instances@.len() && (#[trigger] status.instances@[i])@.workspace
                    == workspace;
            assert(status.instances@[i].workspace@ == workspace);
        }
    }
}

/// A request to clear ends every instance where it is forced, and otherwise those that have neither
/// a client nor a pin; the instances that stay are as they were. The answer lists those that ended,
/// each once and with its process.
pub proof fn law_clear_request_ends_what_it_lists(
    force: bool,
    before: ManagerView,
    now: i64,
    healthy_pids: Seq<u32>,
    after: ManagerView,
    answer: Option<ControlMessage>,
    workspace: Seq<char>,
)
    requires
        settles(ControlMessage::ClearRequest { force }, before, now, healthy_pids, after, answer),
    ensures
        ({
            let instance = before.instances[workspace];
            let needed = (exists|client_id: u32| #[trigger] instance.clients.contains(client_id))
                || instance.pinned;
            &&& after.instances.contains_key(workspace) <==> before.instances.contains_key(
                workspace,
            ) && !force && needed
            &&& after.instances.contains_key(workspace) ==> after.instances[workspace] == instance
            &&& after.default_path == before.default_path
            &&& after.overrides == before.overrides
        }),
        answer matches Some(ControlMessage::ClearResponse { cleared }) && ((exists|i: int|
            0 <= i < cleared@.len() && (#[trigger] cleared@[i]).workspace@ == workspace) <==>
            before.instances.contains_key(workspace) && !after.instances.contains_key(workspace))
            && (forall|i: int|
            0 <= i < cleared@.len() ==> (#[trigger] cleared@[i]).pid
                == before.instances[cleared@[i].workspace@].pid) && (forall|i: int, j: int|
            0 <= i < j < cleared@.len() ==> (#[trigger] cleared@[i]).workspace@ != (
            #[trigger] cleared@[j]).workspace@),
{
    law_clean_ends_what_is_not_needed(before.instances, workspace);
    if let Some(ControlMessage::ClearResponse { cleared }) = answer {
        let choice = if force {
            Choice::Everything
        } else {
            Choice::Unused
        };
        law_list_names_what_ended(cleared@, before.instances, choice, workspace);
    }
}

/// A request to pin makes and ends no instance, sets the pin of the instance of the process as
/// asked, changes nothing else, and is answered with whether there is such an instance.
pub proof fn law_pin_request_sets_the_pin(
    pid: u32,
    pinned: bool,
    before: ManagerView,
    now: i64,
    healthy_pids: Seq<u32>,
    after: ManagerView,
    answer: Option<ControlMessage>,
    workspace: Seq<char>,
)
    requires
        settles(
            ControlMessage::PinRequest { pid, pinned },
            before,
            now,
            healthy_pids,
            after,
            answer,
        ),
    ensures
        after.instances.contains_key(workspace) <==> before.instances.contains_key(workspace),
        before.instances.contains_key(workspace) ==> {
            let (old_one, new_one) = (before.instances[workspace], after.instances[workspace]);
            &&& new_one.pinned == if old_one.pid == pid {
                pinned
            } else {
                old_one.pinned
            }
            &&& new_one.pid == old_one.pid
            &&& new_one.last_used == old_one.last_used
            &&& new_one.active_client_id == old_one.active_client_id
            &&& new_one.clients == old_one.clients
            &&& new_one.mapper == old_one.mapper
        },
        answer matches Some(ControlMessage::PinResponse { found }) && (
        before.instances.contains_key(workspace) && before.instances[workspace].pid == pid
            ==> found) && (found ==> exists|other: Seq<char>| #[trigger]
            before.instances.contains_key(other) && before.instances[other].pid == pid),
{
    law_pin_is_set_for_the_process_alone(before.instances, pid, pinned, workspace);
}

/// What only the daemon sends is not answered when it comes from a client, and changes nothing.
pub proof fn law_answers_are_not_answered(
    message: ControlMessage,
    before: ManagerView,
    now: i64,
    healthy_pids: Seq<u32>,
    after: ManagerView,
    answer: Option<ControlMessage>,
)
    requires
        settles(message, before, now, healthy_pids, after, answer),
        message is StatusResponse || message is ClearResponse || message is PinResponse
            || message is Error,
    ensures
        after == before,
        answer is None,
{
}

} // verus!
