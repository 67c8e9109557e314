//! The daemon's view of all instances: one for each workspace, shared by its clients.

use serde_json::Value;
use vstd::prelude::*;
use vstd::string::*;

use crate::config::{names_differ, overrides_view, OverrideView, ProjectConfig};
use crate::instance::{
    law_answer_is_for_the_asker_alone, law_initialize_from_memory_takes_an_id,
    law_leaving_takes_only_the_client, ClientHandle, ClientMessage, Delivery, DeliveryView,
    HandleView, Instance, InstanceHandle, InstanceKey, InstanceView,
};
use crate::json::{json_of, JsonView};
use crate::mapper::{
    answers, law_new_mapper_is_consistent, law_traffic_keeps_consistency, names_id, Traffic,
};
use crate::protocol::lsp::{bounds_fit, lsp_decoded, opt_frame, IdView, LspFrame};
use crate::protocol::msg::{ClearedInstance, InstanceStatus, StatusView};
use crate::table::{
    find_instance, insert_instance, instance_of, instances_in, new_instances, remove_instance,
    workspaces_of, InstanceTable,
};
use crate::text::{is_same_path, opt_text, same_path};

verus! {

pub type Instances = Map<Seq<char>, InstanceView>;

/// The instances that run and the settings that new ones start with.
pub struct InstanceManager {
    instances: InstanceTable,
    default_lsp_server_path: String,
    project_overrides: Vec<(String, ProjectConfig)>,
}

pub struct ManagerView {
    pub instances: Instances,
    pub default_path: Seq<char>,
    pub overrides: Seq<OverrideView>,
}

impl View for InstanceManager {
    type V = ManagerView;

    closed spec fn view(&self) -> ManagerView {
        ManagerView {
            instances: instances_in(self.instances),
            default_path: self.default_lsp_server_path@,
            overrides: overrides_view(self.project_overrides@),
        }
    }
}

/// What happened since a client asked for an instance.
pub enum SpawnEvent {
    Requested,
    Health { healthy: bool },
    ShutDown,
    Started { pid: u32, now: i64 },
}

/// What has to be done next to give a client an instance.
pub enum SpawnAction {
    CheckHealth { pid: u32 },
    ShutDown { pid: u32 },
    Start,
    Attached { handle: InstanceHandle, reused: bool },
}

pub enum SpawnActionView {
    CheckHealth { pid: u32 },
    ShutDown { pid: u32 },
    Start,
    Attached { handle: HandleView, reused: bool },
}

impl View for SpawnAction {
    type V = SpawnActionView;

    open spec fn view(&self) -> SpawnActionView {
        match self {
            SpawnAction::CheckHealth { pid } => SpawnActionView::CheckHealth { pid: *pid },
            SpawnAction::ShutDown { pid } => SpawnActionView::ShutDown { pid: *pid },
            SpawnAction::Start => SpawnActionView::Start,
            SpawnAction::Attached { handle, reused } => SpawnActionView::Attached {
                handle: handle@,
                reused: *reused,
            },
        }
    }
}

/// Which instances are to end.
#[derive(Clone, Copy)]
pub enum Choice {
    /// All of them.
    Everything,
    /// Those that have no client and are not pinned.
    Unused,
    /// Those of the unused that no client sent anything for so many seconds.
    IdleFor { now: i64, secs: i64 },
}

impl Choice {
    pub open spec fn picks(self, instance: InstanceView) -> bool {
        match self {
            Choice::Everything => true,
            Choice::Unused => instance.clients == Set::<u32>::empty() && !instance.pinned,
            Choice::IdleFor { now, secs } => instance.clients == Set::<u32>::empty()
                && !instance.pinned && now - instance.last_used >= secs,
        }
    }

    /// The instances that the choice leaves.
    pub open spec fn leaves(self, instances: Instances) -> Instances {
        instances.restrict(
            Set::new(
                |workspace: Seq<char>|
                    instances.contains_key(workspace) && !self.picks(instances[workspace]),
            ),
        )
    }
}

/// Whether a list names each instance that the choice picks once, and no other.
pub open spec fn lists_picked(
    cleared: Seq<ClearedInstance>,
    instances: Instances,
    choice: Choice,
) -> bool {
    &&& forall|i: int|
        0 <= i < cleared.len() ==> {
            let entry = (#[trigger] cleared[i])@;
            &&& instances.contains_key(entry.workspace)
            &&& choice.picks(instances[entry.workspace])
            &&& entry.pid == instances[entry.workspace].pid
        }
    &&& forall|workspace: Seq<char>| #[trigger]
        instances.contains_key(workspace) && choice.picks(instances[workspace]) ==> exists|i: int|
            0 <= i < cleared.len() && (#[trigger] cleared[i])@.workspace == workspace
    &&& forall|i: int, j: int|
        0 <= i < j < cleared.len() ==> (#[trigger] cleared[i])@.workspace != (
        #[trigger] cleared[j])@.workspace
}

/// Whether the seconds since each instance was used can be counted.
pub open spec fn idle_secs_fit(instances: Instances, now: i64) -> bool {
    forall|workspace: Seq<char>| #[trigger]
        instances.contains_key(workspace) ==> i64::MIN <= now - instances[workspace].last_used
            <= i64::MAX
}

/// What the status says of an instance.
pub open spec fn status_of(
    workspace: Seq<char>,
    instance: InstanceView,
    now: i64,
    healthy: bool,
) -> StatusView {
    StatusView {
        workspace,
        pid: instance.pid,
        client_count: instance.clients.len() as usize,
        idle_secs: (now - instance.last_used) as i64,
        healthy,
    }
}

/// Whether a status tells of each instance once, and of no other.
pub open spec fn reports(
    statuses: Seq<InstanceStatus>,
    instances: Instances,
    now: i64,
    healthy_pids: Seq<u32>,
) -> bool {
    &&& forall|i: int|
        0 <= i < statuses.len() ==> {
            let entry = (#[trigger] statuses[i])@;
            &&& instances.contains_key(entry.workspace)
            &&& entry == status_of(
                entry.workspace,
                instances[entry.workspace],
                now,
                healthy_pids.contains(instances[entry.workspace].pid),
            )
        }
    &&& forall|workspace: Seq<char>| #[trigger]
        instances.contains_key(workspace) ==> exists|i: int|
            0 <= i < statuses.len() && (#[trigger] statuses[i])@.workspace == workspace
    &&& forall|i: int, j: int|
        0 <= i < j < statuses.len() ==> (#[trigger] statuses[i])@.workspace != (
        #[trigger] statuses[j])@.workspace
}

/// Whether the pins, in turn, are those of the instances that a status tells of.
pub open spec fn tells_pins(
    statuses: Seq<InstanceStatus>,
    pinned: Seq<bool>,
    instances: Instances,
) -> bool {
    &&& pinned.len() == statuses.len()
    &&& forall|i: int|
        0 <= i < statuses.len() ==> pinned[i] == instances[(
        #[trigger] statuses[i])@.workspace].pinned
}

/// The instances, with those of the given process pinned or not.
pub open spec fn with_pins(instances: Instances, pid: u32, pinned: bool) -> Instances {
    instances.map_values(
        |instance: InstanceView|
            if instance.pid == pid {
                instance.with_pin(pinned)
            } else {
                instance
            },
    )
}

/// The language server of the first project that asks for one and is the workspace directory, by
/// its path or as `same_dir` tells.
pub open spec fn first_override(
    overrides: Seq<OverrideView>,
    dir: Seq<char>,
    same_dir: Seq<bool>,
) -> Option<Seq<char>>
    decreases overrides.len(),
{
    if overrides.len() == 0 {
        None
    } else if overrides[0].1 is Some && (same_path(dir, overrides[0].0) || same_dir[0]) {
        overrides[0].1
    } else {
        first_override(overrides.drop_first(), dir, same_dir.drop_first())
    }
}

impl ManagerView {
    /// Whether the instance of a workspace is the given process.
    pub open spec fn serves(self, handle: HandleView) -> bool {
        self.instances.contains_key(handle.key) && self.instances[handle.key].pid == handle.pid
    }

    pub open spec fn with_instance(self, key: Seq<char>, instance: InstanceView) -> ManagerView {
        ManagerView { instances: self.instances.insert(key, instance), ..self }
    }

    pub open spec fn without_instance(self, key: Seq<char>) -> ManagerView {
        ManagerView { instances: self.instances.remove(key), ..self }
    }

    pub open spec fn lsp_server_path(self, dir: Option<Seq<char>>, same_dir: Seq<bool>) -> Seq<
        char,
    > {
        match dir {
            Some(dir) => match first_override(self.overrides, dir, same_dir) {
                Some(path) => path,
                None => self.default_path,
            },
            None => self.default_path,
        }
    }

    pub open spec fn detach(self, key: Seq<char>, client_id: u32) -> ManagerView {
        if self.instances.contains_key(key) {
            self.with_instance(key, self.instances[key].without_client(client_id))
        } else {
            self
        }
    }

    /// The instance of the workspace with a client attached and made the active one.
    pub open spec fn attach(self, key: Seq<char>, instance: InstanceView, client_id: u32) -> ManagerView {
        self.with_instance(key, instance.with_client(client_id).with_active(client_id))
    }

    /// The steps that give a client an instance: a healthy one of the workspace is shared, any
    /// other is ended, and a new one is started where none is left.
    pub open spec fn spawn(self, client_id: u32, key: Seq<char>, event: SpawnEvent) -> (
        ManagerView,
        SpawnActionView,
    ) {
        match event {
            SpawnEvent::Requested => if self.instances.contains_key(key) {
                (self, SpawnActionView::CheckHealth { pid: self.instances[key].pid })
            } else {
                (self, SpawnActionView::Start)
            },
            SpawnEvent::Health { healthy } => if !self.instances.contains_key(key) {
                (self, SpawnActionView::Start)
            } else if healthy {
                let instance = self.instances[key];
                (
                    self.attach(key, instance, client_id),
                    SpawnActionView::Attached {
                        handle: HandleView { key, pid: instance.pid },
                        reused: true,
                    },
                )
            } else {
                (
                    self.without_instance(key),
                    SpawnActionView::ShutDown { pid: self.instances[key].pid },
                )
            },
            SpawnEvent::ShutDown => (self, SpawnActionView::Start),
            SpawnEvent::Started { pid, now } => (
                self.attach(key, InstanceView::started(pid, now), client_id),
                SpawnActionView::Attached { handle: HandleView { key, pid }, reused: false },
            ),
        }
    }

    pub open spec fn cached_initialize(self, key: Seq<char>, request_id: JsonView) -> Option<
        JsonView,
    > {
        if self.instances.contains_key(key) {
            self.instances[key].cached_initialize(request_id)
        } else {
            None
        }
    }

    /// What becomes of bytes from a client; nothing where its instance is gone.
    pub open spec fn on_client_message(
        self,
        handle: HandleView,
        client_id: u32,
        bytes: Seq<u8>,
        now: i64,
    ) -> (ManagerView, Option<Seq<u8>>) {
        if self.serves(handle) {
            let (instance, forwarded) = self.instances[handle.key].on_client_message(
                client_id,
                bytes,
                now,
            );
            (self.with_instance(handle.key, instance), Some(forwarded))
        } else {
            (self, None)
        }
    }

    /// What becomes of a message from a language server; nothing where it is gone.
    pub open spec fn on_server_message(self, handle: HandleView, packet: JsonView) -> (
        ManagerView,
        Option<DeliveryView>,
    ) {
        if self.serves(handle) {
            let (instance, delivery) = self.instances[handle.key].on_server_message(packet);
            (self.with_instance(handle.key, instance), Some(delivery))
        } else {
            (self, None)
        }
    }
}

pub open spec fn opt_bytes(bytes: Option<Vec<u8>>) -> Option<Seq<u8>> {
    match bytes {
        Some(bytes) => Some(bytes@),
        None => None,
    }
}

pub open spec fn opt_delivery(delivery: Option<Delivery>) -> Option<DeliveryView> {
    match delivery {
        Some(delivery) => Some(delivery@),
        None => None,
    }
}

impl InstanceManager {
    pub fn new(
        default_lsp_server_path: String,
        project_overrides: Vec<(String, ProjectConfig)>,
    ) -> (manager: Self)
        ensures
            manager@ == (ManagerView {
                instances: Map::empty(),
                default_path: default_lsp_server_path@,
                overrides: overrides_view(project_overrides@),
            }),
            manager@.consistent(),
            manager@.times_known(),
    {
        InstanceManager { instances: new_instances(), default_lsp_server_path, project_overrides }
    }

    /// The language server to start for a workspace directory. `same_dir` tells of each project
    /// whether the file system takes it for that directory.
    pub fn resolve_lsp_server_path(&self, workspace_dir: Option<&str>, same_dir: &Vec<bool>) -> (path:
        &str)
        requires
            same_dir@.len() == self@.overrides.len(),
        ensures
            path@ == self@.lsp_server_path(
                match workspace_dir {
                    Some(dir) => Some(dir@),
                    None => None,
                },
                same_dir@,
            ),
    {
        let dir = match workspace_dir {
            Some(dir) => dir,
            None => return self.default_lsp_server_path.as_str(),
        };
        let ghost overrides = self@.overrides;
        let mut i: usize = 0;
        assert(overrides.skip(0) =~= overrides);
        assert(same_dir@.skip(0) =~= same_dir@);
        while i < self.project_overrides.len()
            invariant
                overrides == overrides_view(self.project_overrides@),
                same_dir@.len() == overrides.len(),
                i <= overrides.len(),
                first_override(overrides, dir@, same_dir@) == first_override(
                    overrides.skip(i as int),
                    dir@,
                    same_dir@.skip(i as int),
                ),
                overrides == self@.overrides,
                workspace_dir matches Some(d) && d@ == dir@,
            decreases overrides.len() - i,
        {
            let entry = &self.project_overrides[i];
            assert(overrides.skip(i as int)[0] == (entry.0@, opt_text(entry.1.lsp_server_path)));
            if let Some(path) = &entry.1.lsp_server_path {
                if is_same_path(dir, entry.0.as_str()) || same_dir[i] {
                    return path.as_str();
                }
            }
            assert(overrides.skip(i as int).drop_first() =~= overrides.skip(i + 1));
            assert(same_dir@.skip(i as int).drop_first() =~= same_dir@.skip(i + 1));
            i = i + 1;
        }
        self.default_lsp_server_path.as_str()
    }

    /// Detaches a client from an instance. The instance goes on running.
    pub fn detach_client(&mut self, key: &InstanceKey, client_id: u32)
        ensures
            final(self)@ == old(self)@.detach(key@, client_id),
    {
        if let Some(mut instance) = remove_instance(&mut self.instances, key.workspace()) {
            instance.detach_client(client_id);
            insert_instance(&mut self.instances, key.workspace().to_string(), instance);
            assert(self@.instances =~= old(self)@.detach(key@, client_id).instances);
        } else {
            assert(self@.instances =~= old(self)@.instances);
        }
    }

    /// Takes the next step to give a client an instance.
    pub fn spawn_instance(&mut self, client_id: u32, key: &InstanceKey, event: SpawnEvent) -> (action:
        SpawnAction)
        ensures
            (final(self)@, action@) == old(self)@.spawn(client_id, key@, event),
    {
        match event {
            SpawnEvent::Requested => match find_instance(&self.instances, key.workspace()) {
                Some(entry) => SpawnAction::CheckHealth { pid: instance_of(&entry).pid() },
                None => SpawnAction::Start,
            },
            SpawnEvent::Health { healthy } => match remove_instance(
                &mut self.instances,
                key.workspace(),
            ) {
                Some(instance) => {
                    let pid = instance.pid();
                    if healthy {
                        self.attach(client_id, key, instance);
                        assert(self@.instances =~= old(self)@.spawn(
                            client_id,
                            key@,
                            event,
                        ).0.instances);
                        SpawnAction::Attached {
                            handle: InstanceHandle::new(key.clone(), pid),
                            reused: true,
                        }
                    } else {
                        SpawnAction::ShutDown { pid }
                    }
                },
                None => {
                    assert(self@.instances =~= old(self)@.instances);
                    SpawnAction::Start
                },
            },
            SpawnEvent::ShutDown => SpawnAction::Start,
            SpawnEvent::Started { pid, now } => {
                self.attach(client_id, key, Instance::new(pid, now));
                SpawnAction::Attached {
                    handle: InstanceHandle::new(key.clone(), pid),
                    reused: false,
                }
            },
        }
    }

    fn attach(&mut self, client_id: u32, key: &InstanceKey, instance: Instance)
        ensures
            final(self)@ == old(self)@.attach(key@, instance@, client_id),
    {
        let mut instance = instance;
        instance.attach_client(ClientHandle { id: client_id });
        instance.set_active_client(client_id);
        insert_instance(&mut self.instances, key.workspace().to_string(), instance);
    }

    /// The answer to an initialize request from what the language server answered before.
    pub fn build_initialize_response_from_cache(
        &self,
        key: &InstanceKey,
        request_id: &Value,
    ) -> (response: Option<LspFrame>)
        ensures
            opt_frame(response) == self@.cached_initialize(key@, json_of(*request_id)),
    {
        match find_instance(&self.instances, key.workspace()) {
            Some(entry) => instance_of(&entry).build_initialize_response_from_cache(request_id),
            None => None,
        }
    }

    /// Takes bytes from a client and gives those that go to its language server.
    pub fn handle_client_msg(&mut self, handle: &InstanceHandle, msg: ClientMessage, now: i64) -> (forwarded:
        Option<Vec<u8>>)
        requires
            bounds_fit(msg.bytes@),
        ensures
            (final(self)@, opt_bytes(forwarded)) == old(self)@.on_client_message(
                handle@,
                msg.client_id,
                msg.bytes@,
                now,
            ),
    {
        let workspace = handle.key().workspace();
        if let Some(mut instance) = remove_instance(&mut self.instances, workspace) {
            let forwarded = if instance.pid() == handle.pid() {
                Some(instance.handle_client_msg_to_ra(msg, now))
            } else {
                None
            };
            insert_instance(&mut self.instances, workspace.to_string(), instance);
            assert(self@.instances =~= old(self)@.on_client_message(
                handle@,
                msg.client_id,
                msg.bytes@,
                now,
            ).0.instances);
            forwarded
        } else {
            assert(self@.instances =~= old(self)@.instances);
            None
        }
    }

    /// Takes a message from a language server and finds the client that it goes to.
    pub fn route_server_frame(&mut self, handle: &InstanceHandle, frame: LspFrame) -> (delivery:
        Option<Delivery>)
        ensures
            (final(self)@, opt_delivery(delivery)) == old(self)@.on_server_message(handle@, frame@),
    {
        let workspace = handle.key().workspace();
        if let Some(mut instance) = remove_instance(&mut self.instances, workspace) {
            let delivery = if instance.pid() == handle.pid() {
                Some(instance.forward_ra_to_active_client(frame))
            } else {
                None
            };
            insert_instance(&mut self.instances, workspace.to_string(), instance);
            assert(self@.instances =~= old(self)@.on_server_message(handle@, frame@).0.instances);
            delivery
        } else {
            assert(self@.instances =~= old(self)@.instances);
            None
        }
    }
}

fn is_picked(instance: &Instance, choice: Choice) -> (picked: bool)
    requires
        choice matches Choice::IdleFor { now, secs } ==> i64::MIN <= now - instance@.last_used
            <= i64::MAX,
    ensures
        picked == choice.picks(instance@),
{
    match choice {
        Choice::Everything => true,
        Choice::Unused => instance.client_count() == 0 && !instance.is_pinned(),
        Choice::IdleFor { now, secs } => instance.client_count() == 0 && !instance.is_pinned()
            && now - instance.last_used() >= secs,
    }
}

fn contains_pid(pids: &Vec<u32>, pid: u32) -> (contains: bool)
    ensures
        contains == pids@.contains(pid),
{
    let mut i: usize = 0;
    while i < pids.len()
        invariant
            i <= pids@.len(),
            forall|j: int| 0 <= j < i ==> pids@[j] != pid,
        decreases pids@.len() - i,
    {
        if pids[i] == pid {
            assert(pids@[i as int] == pid);
            return true;
        }
        i = i + 1;
    }
    false
}

impl InstanceManager {
    /// Takes out the instances that the choice picks, and tells which they are.
    fn sweep(&mut self, choice: Choice) -> (cleared: Vec<ClearedInstance>)
        requires
            choice matches Choice::IdleFor { now, secs } ==> idle_secs_fit(
                old(self)@.instances,
                now,
            ),
        ensures
            final(self)@ == (ManagerView {
                instances: choice.leaves(old(self)@.instances),
                ..old(self)@
            }),
            lists_picked(cleared@, old(self)@.instances, choice),
    {
        let ghost before = self@.instances;
        let names = workspaces_of(&self.instances);
        let mut cleared: Vec<ClearedInstance> = Vec::new();
        let mut i: usize = 0;
        while i < names.len()
            invariant
                i <= names@.len(),
                self@.default_path == old(self)@.default_path,
                self@.overrides == old(self)@.overrides,
                before == old(self)@.instances,
                choice matches Choice::IdleFor { now, secs } ==> idle_secs_fit(before, now),
                forall|j: int| 0 <= j < names@.len() ==> before.contains_key((#[trigger] names@[j])@),
                forall|j: int, k: int|
                    0 <= j < k < names@.len() ==> (#[trigger] names@[j])@ != (
                    #[trigger] names@[k])@,
                // What is left are the instances not picked, and those not looked at.
                forall|workspace: Seq<char>| #[trigger]
                    self@.instances.contains_key(workspace) ==> before.contains_key(workspace)
                        && self@.instances[workspace] == before[workspace],
                forall|j: int|
                    0 <= j < names@.len() ==> (self@.instances.contains_key(
                        (#[trigger] names@[j])@,
                    ) <==> (j >= i || !choice.picks(before[names@[j]@]))),
                // What is listed are the instances picked among those looked at.
                forall|j: int|
                    0 <= j < cleared@.len() ==> before.contains_key(
                        (#[trigger] cleared@[j])@.workspace,
                    ) && choice.picks(before[cleared@[j]@.workspace]) && cleared@[j]@.pid
                        == before[cleared@[j]@.workspace].pid,
                forall|j: int|
                    0 <= j < cleared@.len() ==> exists|k: int|
                        0 <= k < i && names@[k]@ == (#[trigger] cleared@[j])@.workspace,
                forall|j: int|
                    0 <= j < i && choice.picks(before[names@[j]@]) ==> exists|k: int|
                        0 <= k < cleared@.len() && cleared@[k]@.workspace == (
                        #[trigger] names@[j])@,
                forall|j: int, k: int|
                    0 <= j < k < cleared@.len() ==> (#[trigger] cleared@[j])@.workspace != (
                    #[trigger] cleared@[k])@.workspace,
            decreases names@.len() - i,
        {
            let name = &names[i];
            let ghost at = i as int;
            assert(self@.instances.contains_key(names@[at]@));
            let picked = match find_instance(&self.instances, name.as_str()) {
                Some(entry) => is_picked(instance_of(&entry), choice),
                None => false,
            };
            let ghost listed = cleared@;
            if picked {
                if let Some(instance) = remove_instance(&mut self.instances, name.as_str()) {
                    let entry = ClearedInstance { workspace: name.clone(), pid: instance.pid() };
                    cleared.push(entry);
                    assert(cleared@[listed.len() as int]@.workspace == names@[at]@);
                    assert forall|j: int| 0 <= j < at + 1 && choice.picks(
                        before[names@[j]@],
                    ) implies exists|k: int|
                        0 <= k < cleared@.len() && cleared@[k]@.workspace == (
                        #[trigger] names@[j])@ by {
                        if j < at {
                            let k = choose|k: int|
                                0 <= k < listed.len() && listed[k]@.workspace == names@[j]@;
                            assert(cleared@[k] == listed[k]);
                        }
                    }
                }
            }
            i = i + 1;
        }
        assert(self@.instances =~= choice.leaves(before)) by {
            assert forall|workspace: Seq<char>| self@.instances.contains_key(workspace)
                <==> choice.leaves(before).contains_key(workspace) by {
                if before.contains_key(workspace) {
                    let j = choose|j: int|
                        0 <= j < names@.len() && (#[trigger] names@[j])@ == workspace;
                    assert(names@[j]@ == workspace);
                }
            }
        }
        assert forall|workspace: Seq<char>| #[trigger]
            before.contains_key(workspace) && choice.picks(before[workspace]) implies exists|k: int|
            0 <= k < cleared@.len() && (#[trigger] cleared@[k])@.workspace == workspace by {
            let j = choose|j: int| 0 <= j < names@.len() && (#[trigger] names@[j])@ == workspace;
            assert(names@[j]@ == workspace);
        }
        cleared
    }

    /// Takes out the instances that have no client, are not pinned, and were not used for the
    /// given number of seconds.
    pub fn reap_idle_instances(&mut self, now: i64, idle_timeout_secs: i64) -> (reaped: Vec<
        ClearedInstance,
    >)
        requires
            idle_secs_fit(old(self)@.instances, now),
        ensures
            ({
                let choice = Choice::IdleFor { now, secs: idle_timeout_secs };
                &&& final(self)@ == (ManagerView {
                    instances: choice.leaves(old(self)@.instances),
                    ..old(self)@
                })
                &&& lists_picked(reaped@, old(self)@.instances, choice)
            }),
    {
        self.sweep(Choice::IdleFor { now, secs: idle_timeout_secs })
    }

    /// Takes out the instances that have no client and are not pinned.
    pub fn clear_idle(&mut self) -> (cleared: Vec<ClearedInstance>)
        ensures
            final(self)@ == (ManagerView {
                instances: Choice::Unused.leaves(old(self)@.instances),
                ..old(self)@
            }),
            lists_picked(cleared@, old(self)@.instances, Choice::Unused),
    {
        self.sweep(Choice::Unused)
    }

    /// Takes out all instances.
    pub fn clear_all(&mut self) -> (cleared: Vec<ClearedInstance>)
        ensures
            final(self)@ == (ManagerView { instances: Map::empty(), ..old(self)@ }),
            lists_picked(cleared@, old(self)@.instances, Choice::Everything),
    {
        let cleared = self.sweep(Choice::Everything);
        assert(Choice::Everything.leaves(old(self)@.instances) =~= Map::empty());
        cleared
    }

    /// What there is to tell of the instances. `healthy_pids` are the processes that are in order.
    pub fn status(&self, now: i64, healthy_pids: &Vec<u32>) -> (statuses: Vec<InstanceStatus>)
        requires
            idle_secs_fit(self@.instances, now),
        ensures
            reports(statuses@, self@.instances, now, healthy_pids@),
    {
        let ghost instances = self@.instances;
        let names = workspaces_of(&self.instances);
        let mut statuses: Vec<InstanceStatus> = Vec::new();
        let mut i: usize = 0;
        while i < names.len()
            invariant
                i <= names@.len(),
                instances == self@.instances,
                idle_secs_fit(instances, now),
                forall|j: int|
                    0 <= j < names@.len() ==> instances.contains_key((#[trigger] names@[j])@),
                forall|j: int, k: int|
                    0 <= j < k < names@.len() ==> (#[trigger] names@[j])@ != (
                    #[trigger] names@[k])@,
                statuses@.len() == i,
                forall|j: int|
                    0 <= j < i ==> (#[trigger] statuses@[j])@ == status_of(
                        names@[j]@,
                        instances[names@[j]@],
                        now,
                        healthy_pids@.contains(instances[names@[j]@].pid),
                    ),
            decreases names@.len() - i,
        {
            let name = &names[i];
            assert(instances.contains_key(names@[i as int]@));
            if let Some(entry) = find_instance(&self.instances, name.as_str()) {
                let instance = instance_of(&entry);
                let pid = instance.pid();
                statuses.push(
                    InstanceStatus {
                        workspace: name.clone(),
                        pid,
                        client_count: instance.client_count(),
                        idle_secs: now - instance.last_used(),
                        healthy: contains_pid(healthy_pids, pid),
                    },
                );
            }
            i = i + 1;
        }
        assert forall|workspace: Seq<char>| #[trigger]
            instances.contains_key(workspace) implies exists|k: int|
            0 <= k < statuses@.len() && (#[trigger] statuses@[k])@.workspace == workspace by {
            let j = choose|j: int| 0 <= j < names@.len() && (#[trigger] names@[j])@ == workspace;
            assert(names@[j]@ == workspace);
            assert(statuses@[j]@.workspace == workspace);
        }
        statuses
    }

    /// Which of the instances that a status tells of are pinned.
    pub fn pins(&self, statuses: &Vec<InstanceStatus>) -> (pinned: Vec<bool>)
        ensures
            pinned@.len() == statuses@.len(),
            forall|i: int|
                0 <= i < statuses@.len() ==> #[trigger] pinned@[i]
                    == (self@.instances.contains_key(statuses@[i]@.workspace)
                    && self@.instances[statuses@[i]@.workspace].pinned),
    {
        let mut pinned: Vec<bool> = Vec::new();
        let mut i: usize = 0;
        while i < statuses.len()
            invariant
                i <= statuses@.len(),
                pinned@.len() == i,
                forall|j: int|
                    0 <= j < i ==> #[trigger] pinned@[j] == (self@.instances.contains_key(
                        statuses@[j]@.workspace,
                    ) && self@.instances[statuses@[j]@.workspace].pinned),
            decreases statuses@.len() - i,
        {
            let pin = match find_instance(&self.instances, statuses[i].workspace.as_str()) {
                Some(entry) => instance_of(&entry).is_pinned(),
                None => false,
            };
            pinned.push(pin);
            i = i + 1;
        }
        pinned
    }

    /// Whether the seconds since each instance was used can be counted.
    pub fn can_count_idle_secs(&self, now: i64) -> (can: bool)
        ensures
            can == idle_secs_fit(self@.instances, now),
    {
        let names = workspaces_of(&self.instances);
        let mut i: usize = 0;
        while i < names.len()
            invariant
                i <= names@.len(),
                forall|j: int|
                    0 <= j < names@.len() ==> self@.instances.contains_key((#[trigger] names@[j])@),
                forall|j: int|
                    0 <= j < i ==> i64::MIN <= now - self@.instances[(
                    #[trigger] names@[j])@].last_used <= i64::MAX,
            decreases names@.len() - i,
        {
            assert(self@.instances.contains_key(names@[i as int]@));
            if let Some(entry) = find_instance(&self.instances, names[i].as_str()) {
                if now.checked_sub(instance_of(&entry).last_used()).is_none() {
                    return false;
                }
            }
            i = i + 1;
        }
        assert forall|workspace: Seq<char>| #[trigger]
            self@.instances.contains_key(workspace) implies i64::MIN <= now
            - self@.instances[workspace].last_used <= i64::MAX by {
            let j = choose|j: int| 0 <= j < names@.len() && (#[trigger] names@[j])@ == workspace;
            assert(names@[j]@ == workspace);
        }
        true
    }

    /// Pins the instance of a process, or takes its pin away; tells whether there is one.
    pub fn set_pinned(&mut self, pid: u32, pinned: bool) -> (found: bool)
        ensures
            final(self)@ == (ManagerView {
                instances: with_pins(old(self)@.instances, pid, pinned),
                ..old(self)@
            }),
            found == exists|workspace: Seq<char>| #[trigger]
                old(self)@.instances.contains_key(workspace)
                    && old(self)@.instances[workspace].pid == pid,
    {
        let ghost before = self@.instances;
        let ghost goal = with_pins(before, pid, pinned);
        let names = workspaces_of(&self.instances);
        let mut found = false;
        let mut i: usize = 0;
        while i < names.len()
            invariant
                i <= names@.len(),
                self@.default_path == old(self)@.default_path,
                self@.overrides == old(self)@.overrides,
                before == old(self)@.instances,
                goal == with_pins(before, pid, pinned),
                forall|j: int| 0 <= j < names@.len() ==> before.contains_key((#[trigger] names@[j])@),
                forall|j: int, k: int|
                    0 <= j < k < names@.len() ==> (#[trigger] names@[j])@ != (
                    #[trigger] names@[k])@,
                forall|workspace: Seq<char>|
                    self@.instances.contains_key(workspace) == before.contains_key(workspace),
                forall|j: int|
                    0 <= j < names@.len() ==> self@.instances[(#[trigger] names@[j])@] == if j < i {
                        goal[names@[j]@]
                    } else {
                        before[names@[j]@]
                    },
                found == exists|j: int| 0 <= j < i && before[(#[trigger] names@[j])@].pid == pid,
            decreases names@.len() - i,
        {
            let name = &names[i];
            let ghost at = i as int;
            assert(self@.instances.contains_key(names@[at]@));
            assert(goal[names@[at]@] == if before[names@[at]@].pid == pid {
                before[names@[at]@].with_pin(pinned)
            } else {
                before[names@[at]@]
            });
            if let Some(mut instance) = remove_instance(&mut self.instances, name.as_str()) {
                if instance.pid() == pid {
                    instance.set_pinned(pinned);
                    found = true;
                    assert(before[names@[at]@].pid == pid);
                }
                insert_instance(&mut self.instances, name.clone(), instance);
            }
            i = i + 1;
        }
        assert forall|workspace: Seq<char>| #[trigger]
            before.contains_key(workspace) implies self@.instances[workspace] == goal[workspace] by {
            let j = choose|j: int| 0 <= j < names@.len() && (#[trigger] names@[j])@ == workspace;
            assert(names@[j]@ == workspace);
        }
        assert(self@.instances =~= goal);
        proof {
            if exists|workspace: Seq<char>| #[trigger]
                before.contains_key(workspace) && before[workspace].pid == pid {
                let workspace = choose|workspace: Seq<char>| #[trigger]
                    before.contains_key(workspace) && before[workspace].pid == pid;
                let j = choose|j: int|
                    0 <= j < names@.len() && (#[trigger] names@[j])@ == workspace;
                assert(before[names@[j]@].pid == pid);
            }
        }
        found
    }
}

/// Something that happens to the instances.
pub enum Step {
    Spawn { client_id: u32, key: Seq<char>, event: SpawnEvent },
    Detach { key: Seq<char>, client_id: u32 },
    FromClient { handle: HandleView, client_id: u32, bytes: Seq<u8>, now: i64 },
    FromServer { handle: HandleView, packet: JsonView },
    Clear { choice: Choice },
    Pin { pid: u32, pinned: bool },
}

impl Step {
    /// The workspace that the step is about, where it is about one.
    pub open spec fn workspace(self) -> Option<Seq<char>> {
        match self {
            Step::Spawn { key, .. } => Some(key),
            Step::Detach { key, .. } => Some(key),
            Step::FromClient { handle, .. } => Some(handle.key),
            Step::FromServer { handle, .. } => Some(handle.key),
            _ => None,
        }
    }

    /// Whether the step ends or replaces the instance of a workspace because it was found
    /// unhealthy, or because another was started.
    pub open spec fn replaces(self, workspace: Seq<char>) -> bool {
        match self {
            Step::Spawn { key, event, .. } => key == workspace && (match event {
                SpawnEvent::Health { healthy } => !healthy,
                SpawnEvent::Started { .. } => true,
                _ => false,
            }),
            _ => false,
        }
    }

    /// Whether the time that the step happens at, if it tells, is not before the epoch.
    pub open spec fn is_timely(self) -> bool {
        match self {
            Step::Spawn { event: SpawnEvent::Started { now, .. }, .. } => now >= 0,
            Step::FromClient { now, .. } => now >= 0,
            _ => true,
        }
    }
}

impl ManagerView {
    pub open spec fn after(self, step: Step) -> ManagerView {
        match step {
            Step::Spawn { client_id, key, event } => self.spawn(client_id, key, event).0,
            Step::Detach { key, client_id } => self.detach(key, client_id),
            Step::FromClient { handle, client_id, bytes, now } => self.on_client_message(
                handle,
                client_id,
                bytes,
                now,
            ).0,
            Step::FromServer { handle, packet } => self.on_server_message(handle, packet).0,
            Step::Clear { choice } => ManagerView {
                instances: choice.leaves(self.instances),
                ..self
            },
            Step::Pin { pid, pinned } => ManagerView {
                instances: with_pins(self.instances, pid, pinned),
                ..self
            },
        }
    }

    /// Whether the request ids of every instance are in order.
    pub open spec fn consistent(self) -> bool {
        forall|workspace: Seq<char>| #[trigger]
            self.instances.contains_key(workspace) ==> self.instances[workspace].mapper.consistent()
    }

    /// Whether every instance has request ids left to give out.
    pub open spec fn has_ids_left(self) -> bool {
        forall|workspace: Seq<char>| #[trigger]
            self.instances.contains_key(workspace) ==> self.instances[workspace].mapper.next
                < u64::MAX
    }

    /// Whether no instance was used before the epoch.
    pub open spec fn times_known(self) -> bool {
        forall|workspace: Seq<char>| #[trigger]
            self.instances.contains_key(workspace) ==> self.instances[workspace].last_used >= 0
    }
}

/// A workspace has no instance: a client that asks for one is given a new one, and is the only
/// client of it.
pub proof fn law_first_client_starts_an_instance(
    manager: ManagerView,
    client_id: u32,
    key: Seq<char>,
    pid: u32,
    now: i64,
)
    requires
        !manager.instances.contains_key(key),
    ensures
        manager.spawn(client_id, key, SpawnEvent::Requested) == (manager, SpawnActionView::Start),
        ({
            let (started, action) = manager.spawn(
                client_id,
                key,
                SpawnEvent::Started { pid, now },
            );
            &&& action == (SpawnActionView::Attached {
                handle: HandleView { key, pid },
                reused: false,
            })
            &&& started.serves(HandleView { key, pid })
            &&& started.instances[key].clients == set![client_id]
            &&& started.instances[key].active_client_id == client_id
            &&& !started.instances[key].pinned
        }),
{
    assert(Set::<u32>::empty().insert(client_id) =~= set![client_id]);
}

/// A workspace has a healthy instance: a client that asks for one shares it, next to the clients
/// that it has. No other instance is started for the workspace.
pub proof fn law_healthy_instance_is_shared(manager: ManagerView, client_id: u32, key: Seq<char>)
    requires
        manager.instances.contains_key(key),
    ensures
        manager.spawn(client_id, key, SpawnEvent::Requested) == (
            manager,
            SpawnActionView::CheckHealth { pid: manager.instances[key].pid },
        ),
        ({
            let instance = manager.instances[key];
            let (shared, action) = manager.spawn(
                client_id,
                key,
                SpawnEvent::Health { healthy: true },
            );
            &&& action == (SpawnActionView::Attached {
                handle: HandleView { key, pid: instance.pid },
                reused: true,
            })
            &&& shared.instances.dom() == manager.instances.dom()
            &&& shared.instances[key] == (InstanceView {
                clients: instance.clients.insert(client_id),
                active_client_id: client_id,
                ..instance
            })
        }),
{
    assert(manager.spawn(
        client_id,
        key,
        SpawnEvent::Health { healthy: true },
    ).0.instances.dom() =~= manager.instances.dom());
}

/// Two clients that ask for the same workspace, one after the other, are given the same process.
pub proof fn law_two_clients_share_one_instance(
    manager: ManagerView,
    first: u32,
    second: u32,
    key: Seq<char>,
    pid: u32,
    now: i64,
)
    requires
        !manager.instances.contains_key(key),
    ensures
        ({
            let started = manager.spawn(first, key, SpawnEvent::Started { pid, now }).0;
            let (shared, action) = started.spawn(
                second,
                key,
                SpawnEvent::Health { healthy: true },
            );
            &&& started.spawn(second, key, SpawnEvent::Requested).1
                == (SpawnActionView::CheckHealth { pid })
            &&& action == (SpawnActionView::Attached {
                handle: HandleView { key, pid },
                reused: true,
            })
            &&& shared.instances.dom() == manager.instances.dom().insert(key)
            &&& shared.instances[key].clients == set![first, second]
        }),
{
    let started = manager.spawn(first, key, SpawnEvent::Started { pid, now }).0;
    let shared = started.spawn(second, key, SpawnEvent::Health { healthy: true }).0;
    assert(shared.instances.dom() =~= manager.instances.dom().insert(key));
    assert(shared.instances[key].clients =~= set![first, second]);
}

/// A workspace has an instance that is not healthy: it is ended, and a new one takes its place.
pub proof fn law_unhealthy_instance_is_replaced(
    manager: ManagerView,
    client_id: u32,
    key: Seq<char>,
    pid: u32,
    now: i64,
)
    requires
        manager.instances.contains_key(key),
    ensures
        ({
            let (ended, action) = manager.spawn(
                client_id,
                key,
                SpawnEvent::Health { healthy: false },
            );
            &&& action == (SpawnActionView::ShutDown { pid: manager.instances[key].pid })
            &&& !ended.instances.contains_key(key)
            &&& ended.spawn(client_id, key, SpawnEvent::ShutDown) == (ended, SpawnActionView::Start)
            &&& ended.spawn(
                client_id,
                key,
                SpawnEvent::Started { pid, now },
            ).0.instances.dom() == manager.instances.dom()
        }),
{
    let ended = manager.spawn(client_id, key, SpawnEvent::Health { healthy: false }).0;
    assert(ended.spawn(client_id, key, SpawnEvent::Started { pid, now }).0.instances.dom()
        =~= manager.instances.dom());
}

/// An instance outlives the clients that leave it: all that changes is who is attached.
pub proof fn law_instance_outlives_its_clients(
    manager: ManagerView,
    key: Seq<char>,
    client_id: u32,
)
    ensures
        ({
            let left = manager.detach(key, client_id);
            &&& left.instances.dom() == manager.instances.dom()
            &&& forall|workspace: Seq<char>| #[trigger]
                manager.instances.contains_key(workspace) ==> left.instances[workspace]
                    == if workspace == key {
                    manager.instances[key].without_client(client_id)
                } else {
                    manager.instances[workspace]
                }
        }),
{
    assert(manager.detach(key, client_id).instances.dom() =~= manager.instances.dom());
}

/// A client that joins an instance and leaves it again leaves the clients as they were.
pub proof fn law_leaving_undoes_joining(manager: ManagerView, key: Seq<char>, client_id: u32)
    requires
        manager.instances.contains_key(key),
        !manager.instances[key].clients.contains(client_id),
    ensures
        manager.spawn(client_id, key, SpawnEvent::Health { healthy: true }).0.detach(
            key,
            client_id,
        ).instances[key].clients == manager.instances[key].clients,
{
    assert(manager.instances[key].clients.insert(client_id).remove(client_id)
        =~= manager.instances[key].clients);
}

/// What happens in one workspace leaves the instances of all others as they are.
pub proof fn law_workspaces_are_separate(manager: ManagerView, step: Step, workspace: Seq<char>)
    requires
        step.workspace() is Some,
        step.workspace() != Some(workspace),
    ensures
        manager.after(step).instances.contains_key(workspace) == manager.instances.contains_key(
            workspace,
        ),
        manager.instances.contains_key(workspace) ==> manager.after(step).instances[workspace]
            == manager.instances[workspace],
{
}

/// Nothing ends an instance that has a client, short of ending all instances on request, or a
/// client that finds it unhealthy.
pub proof fn law_instance_in_use_goes_on(manager: ManagerView, step: Step, workspace: Seq<char>)
    requires
        manager.instances.contains_key(workspace),
        exists|client_id: u32| manager.instances[workspace].clients.contains(client_id),
        !(step matches Step::Clear { choice: Choice::Everything }),
        !step.replaces(workspace),
    ensures
        manager.after(step).instances.contains_key(workspace),
        manager.after(step).instances[workspace].pid == manager.instances[workspace].pid,
{
    let client_id = choose|client_id: u32|
        manager.instances[workspace].clients.contains(client_id);
    assert(manager.instances[workspace].clients != Set::<u32>::empty()) by {
        assert(manager.instances[workspace].clients.contains(client_id));
    }
}

/// Nothing ends an instance that is pinned or takes its pin away, short of ending all instances
/// on request, a client that finds it unhealthy, or a request to unpin it.
pub proof fn law_pinned_instance_goes_on(manager: ManagerView, step: Step, workspace: Seq<char>)
    requires
        manager.instances.contains_key(workspace),
        manager.instances[workspace].pinned,
        !(step matches Step::Clear { choice: Choice::Everything }),
        !(step matches Step::Pin { pid, pinned } && pid == manager.instances[workspace].pid
            && !pinned),
        !step.replaces(workspace),
    ensures
        manager.after(step).instances.contains_key(workspace),
        manager.after(step).instances[workspace].pid == manager.instances[workspace].pid,
        manager.after(step).instances[workspace].pinned,
{
}

/// The reaper ends an instance if and only if it has no client, is not pinned, and was not used
/// for the given time.
pub proof fn law_reaper_ends_idle_instances(
    manager: ManagerView,
    now: i64,
    secs: i64,
    workspace: Seq<char>,
)
    requires
        manager.instances.contains_key(workspace),
    ensures
        ({
            let instance = manager.instances[workspace];
            let left = Choice::IdleFor { now, secs }.leaves(manager.instances);
            &&& left.contains_key(workspace) <==> (exists|client_id: u32| #[trigger]
                instance.clients.contains(client_id)) || instance.pinned || now
                - instance.last_used < secs
            &&& left.contains_key(workspace) ==> left[workspace] == instance
        }),
{
    let instance = manager.instances[workspace];
    if forall|client_id: u32| !(#[trigger] instance.clients.contains(client_id)) {
        assert(instance.clients =~= Set::<u32>::empty());
    }
}

/// The reaper never ends an instance that a clean would leave.
pub proof fn law_reaper_spares_what_clean_spares(
    instances: Instances,
    now: i64,
    secs: i64,
    workspace: Seq<char>,
)
    requires
        Choice::Unused.leaves(instances).contains_key(workspace),
    ensures
        (Choice::IdleFor { now, secs }).leaves(instances).contains_key(workspace),
{
}

/// A clean that is asked for again finds nothing more to end.
pub proof fn law_clearing_again_ends_nothing(instances: Instances, choice: Choice)
    ensures
        choice.leaves(choice.leaves(instances)) == choice.leaves(instances),
{
    assert(choice.leaves(choice.leaves(instances)) =~= choice.leaves(instances));
}

/// A forced clean leaves no instance.
pub proof fn law_forced_clean_ends_everything(instances: Instances)
    ensures
        Choice::Everything.leaves(instances) == Map::<Seq<char>, InstanceView>::empty(),
{
    assert(Choice::Everything.leaves(instances) =~= Map::empty());
}

/// To pin an instance keeps it from a clean; to take the pin away again leaves it as it was
/// without one.
pub proof fn law_pin_keeps_from_clean(instances: Instances, pid: u32, workspace: Seq<char>)
    requires
        instances.contains_key(workspace),
        instances[workspace].pid == pid,
    ensures
        Choice::Unused.leaves(with_pins(instances, pid, true)).contains_key(workspace),
        !instances[workspace].pinned ==> with_pins(
            with_pins(instances, pid, true),
            pid,
            false,
        )[workspace] == instances[workspace],
{
}

/// The request ids of all instances stay in order, until they run out.
pub proof fn law_every_step_keeps_ids_consistent(manager: ManagerView, step: Step)
    requires
        manager.consistent(),
        manager.has_ids_left(),
    ensures
        manager.after(step).consistent(),
{
    law_new_mapper_is_consistent();
    let after = manager.after(step);
    assert forall|workspace: Seq<char>| #[trigger] after.instances.contains_key(
        workspace,
    ) implies after.instances[workspace].mapper.consistent() by {
        if manager.instances.contains_key(workspace) {
            let mapper = manager.instances[workspace].mapper;
            match step {
                Step::FromClient { handle, client_id, bytes, now } => {
                    if let Ok(Some(packet)) = lsp_decoded(bytes).0 {
                        law_traffic_keeps_consistency(
                            mapper,
                            Traffic::FromClient { cid: client_id, packet },
                        );
                    }
                },
                Step::FromServer { handle, packet } => {
                    law_traffic_keeps_consistency(
                        mapper,
                        Traffic::FromServer {
                            packet,
                            active: manager.instances[workspace].active_client_id,
                        },
                    );
                },
                _ => {},
            }
        }
    }
}

/// As long as the clock does not go back beyond the epoch, the time since an instance was used
/// can be counted.
pub proof fn law_idle_time_can_be_counted(manager: ManagerView, step: Step, now: i64)
    requires
        manager.times_known(),
        step.is_timely(),
        now >= 0,
    ensures
        manager.after(step).times_known(),
        idle_secs_fit(manager.instances, now),
{
    let after = manager.after(step);
    assert forall|workspace: Seq<char>| #[trigger] after.instances.contains_key(
        workspace,
    ) implies after.instances[workspace].last_used >= 0 by {
        if manager.instances.contains_key(workspace) {
            assert(manager.instances[workspace].last_used >= 0);
        }
    }
}

/// Whether no two projects are the same path.
pub open spec fn paths_differ(overrides: Seq<OverrideView>) -> bool {
    forall|i: int, j: int|
        0 <= i < j < overrides.len() ==> !same_path(
            (#[trigger] overrides[i]).0,
            (#[trigger] overrides[j]).0,
        )
}

/// Projects at different paths have different names, as the settings ask of them.
pub proof fn law_different_paths_have_different_names(overrides: Seq<OverrideView>)
    requires
        paths_differ(overrides),
    ensures
        names_differ(overrides),
{
    assert forall|i: int, j: int| 0 <= i < j < overrides.len() implies (
    #[trigger] overrides[i]).0 != (#[trigger] overrides[j]).0 by {
        assert(!same_path(overrides[i].0, overrides[j].0));
    }
}

/// The project that is found for a directory named exactly as a project is that project, in
/// whichever order the projects are listed, where no other is at the same path. As no project is
/// named twice, there is one at most.
pub proof fn law_override_is_found_by_name(
    overrides: Seq<OverrideView>,
    same_dir: Seq<bool>,
    at: int,
)
    requires
        names_differ(overrides),
        same_dir.len() == overrides.len(),
        forall|i: int| 0 <= i < same_dir.len() ==> !(#[trigger] same_dir[i]),
        0 <= at < overrides.len(),
        overrides[at].1 is Some,
        forall|i: int|
            0 <= i < overrides.len() && same_path(overrides[at].0, (#[trigger] overrides[i]).0)
                ==> overrides[i].0 == overrides[at].0,
    ensures
        first_override(overrides, overrides[at].0, same_dir) == overrides[at].1,
    decreases overrides.len(),
{
    let dir = overrides[at].0;
    if at > 0 {
        let rest = overrides.drop_first();
        assert(overrides[0].0 != overrides[at].0);
        assert forall|i: int| 0 <= i < rest.len() implies !(
        #[trigger] same_dir.drop_first()[i]) by {
            assert(same_dir.drop_first()[i] == same_dir[i + 1]);
        }
        assert forall|i: int, j: int| 0 <= i < j < rest.len() implies (#[trigger] rest[i]).0 != (
        #[trigger] rest[j]).0 by {
            assert(rest[i] == overrides[i + 1] && rest[j] == overrides[j + 1]);
        }
        assert forall|i: int|
            0 <= i < rest.len() && same_path(rest[at - 1].0, (#[trigger] rest[i]).0) implies rest[i].0
            == rest[at - 1].0 by {
            assert(rest[i] == overrides[i + 1]);
        }
        law_override_is_found_by_name(rest, same_dir.drop_first(), at - 1);
    }
}

/// Where no two projects are the same path and the file system knows none by another, the language
/// server is the one that the project at the workspace directory asks for, in whichever order the
/// projects are listed.
pub proof fn law_override_is_found_by_path(
    overrides: Seq<OverrideView>,
    dir: Seq<char>,
    same_dir: Seq<bool>,
    path: Seq<char>,
)
    requires
        paths_differ(overrides),
        same_dir.len() == overrides.len(),
        forall|i: int| 0 <= i < same_dir.len() ==> !(#[trigger] same_dir[i]),
    ensures
        first_override(overrides, dir, same_dir) == Some(path) <==> exists|i: int|
            0 <= i < overrides.len() && same_path(dir, (#[trigger] overrides[i]).0)
                && overrides[i].1 == Some(path),
    decreases overrides.len(),
{
    if overrides.len() > 0 {
        let rest = overrides.drop_first();
        assert forall|i: int| 0 <= i < rest.len() implies !(
        #[trigger] same_dir.drop_first()[i]) by {
            assert(same_dir.drop_first()[i] == same_dir[i + 1]);
        }
        assert(paths_differ(rest)) by {
            assert forall|i: int, j: int| 0 <= i < j < rest.len() implies !same_path(
                (#[trigger] rest[i]).0,
                (#[trigger] rest[j]).0,
            ) by {
                assert(rest[i] == overrides[i + 1] && rest[j] == overrides[j + 1]);
            }
        }
        law_override_is_found_by_path(rest, dir, same_dir.drop_first(), path);
        if exists|i: int|
            0 <= i < rest.len() && same_path(dir, (#[trigger] rest[i]).0) && rest[i].1 == Some(
                path,
            ) {
            let i = choose|i: int|
                0 <= i < rest.len() && same_path(dir, (#[trigger] rest[i]).0) && rest[i].1 == Some(
                    path,
                );
            assert(overrides[i + 1] == rest[i]);
            assert(!same_path(overrides[0].0, overrides[i + 1].0));
        }
        if exists|i: int|
            0 <= i < overrides.len() && same_path(dir, (#[trigger] overrides[i]).0)
                && overrides[i].1 == Some(path) {
            let i = choose|i: int|
                0 <= i < overrides.len() && same_path(dir, (#[trigger] overrides[i]).0)
                    && overrides[i].1 == Some(path);
            if i > 0 {
                assert(rest[i - 1] == overrides[i]);
            }
        }
    }
}

/// What a status tells of an instance is what holds of it: its process, how many clients it has,
/// whether it is in order, and the seconds since it was used, which together with the time of its
/// last use make the time of the status. It tells of every instance, of each once, and of no other.
pub proof fn law_status_tells_what_holds(
    statuses: Seq<InstanceStatus>,
    instances: Instances,
    now: i64,
    healthy_pids: Seq<u32>,
    at: int,
)
    requires
        reports(statuses, instances, now, healthy_pids),
        idle_secs_fit(instances, now),
        0 <= at < statuses.len(),
        instances[statuses[at].workspace@].clients.len() <= usize::MAX,
    ensures
        ({
            let told = statuses[at];
            let instance = instances[told.workspace@];
            &&& instances.contains_key(told.workspace@)
            &&& told.pid == instance.pid
            &&& told.client_count == instance.clients.len()
            &&& told.idle_secs + instance.last_used == now
            &&& told.healthy <==> exists|i: int|
                0 <= i < healthy_pids.len() && healthy_pids[i] == instance.pid
        }),
        forall|workspace: Seq<char>| #[trigger]
            instances.contains_key(workspace) ==> exists|i: int|
                0 <= i < statuses.len() && (#[trigger] statuses[i]).workspace@ == workspace,
        forall|i: int|
            0 <= i < statuses.len() && i != at ==> (#[trigger] statuses[i]).workspace@
                != statuses[at].workspace@,
{
    let told = statuses[at]@;
    assert(instances.contains_key(told.workspace));
    assert forall|workspace: Seq<char>| #[trigger]
        instances.contains_key(workspace) implies exists|i: int|
        0 <= i < statuses.len() && (#[trigger] statuses[i]).workspace@ == workspace by {
        let i = choose|i: int|
            0 <= i < statuses.len() && (#[trigger] statuses[i])@.workspace == workspace;
        assert(statuses[i].workspace@ == workspace);
    }
    assert forall|i: int| 0 <= i < statuses.len() && i != at implies (
    #[trigger] statuses[i]).workspace@ != statuses[at].workspace@ by {
        if i < at {
            assert(statuses[i]@.workspace != statuses[at]@.workspace);
        } else {
            assert(statuses[at]@.workspace != statuses[i]@.workspace);
        }
    }
}

/// The reaper ends exactly the instances that a status at the same time tells to be idle for at
/// least the timeout, and that have neither a client nor a pin.
pub proof fn law_reaper_goes_by_what_the_status_tells(
    statuses: Seq<InstanceStatus>,
    instances: Instances,
    now: i64,
    healthy_pids: Seq<u32>,
    at: int,
    secs: i64,
)
    requires
        reports(statuses, instances, now, healthy_pids),
        idle_secs_fit(instances, now),
        0 <= at < statuses.len(),
    ensures
        ({
            let told = statuses[at];
            let instance = instances[told.workspace@];
            (Choice::IdleFor { now, secs }).leaves(instances).contains_key(told.workspace@) <==> (
            exists|client_id: u32| #[trigger] instance.clients.contains(client_id))
                || instance.pinned || told.idle_secs < secs
        }),
{
    let told = statuses[at]@;
    let instance = instances[told.workspace];
    assert(instances.contains_key(told.workspace));
    if forall|client_id: u32| !(#[trigger] instance.clients.contains(client_id)) {
        assert(instance.clients =~= Set::<u32>::empty());
    }
}

/// A clean ends exactly the instances that have neither a client nor a pin, leaves the others as
/// they are, and makes none.
pub proof fn law_clean_ends_what_is_not_needed(instances: Instances, workspace: Seq<char>)
    ensures
        ({
            let instance = instances[workspace];
            let left = Choice::Unused.leaves(instances);
            &&& left.contains_key(workspace) <==> instances.contains_key(workspace) && ((
            exists|client_id: u32| #[trigger] instance.clients.contains(client_id))
                || instance.pinned)
            &&& left.contains_key(workspace) ==> left[workspace] == instance
        }),
{
    let instance = instances[workspace];
    if forall|client_id: u32| !(#[trigger] instance.clients.contains(client_id)) {
        assert(instance.clients =~= Set::<u32>::empty());
    }
}

/// A list of what ended names exactly the instances that were there before and are gone after, each
/// once and with its process.
pub proof fn law_list_names_what_ended(
    cleared: Seq<ClearedInstance>,
    instances: Instances,
    choice: Choice,
    workspace: Seq<char>,
)
    requires
        lists_picked(cleared, instances, choice),
    ensures
        (exists|i: int| 0 <= i < cleared.len() && (#[trigger] cleared[i]).workspace@ == workspace)
            <==> instances.contains_key(workspace) && !choice.leaves(instances).contains_key(
            workspace,
        ),
        forall|i: int|
            0 <= i < cleared.len() ==> (#[trigger] cleared[i]).pid
                == instances[cleared[i].workspace@].pid,
        forall|i: int, j: int|
            0 <= i < j < cleared.len() ==> (#[trigger] cleared[i]).workspace@ != (
            #[trigger] cleared[j]).workspace@,
{
    assert forall|i: int| 0 <= i < cleared.len() implies (#[trigger] cleared[i]).pid
        == instances[cleared[i].workspace@].pid && instances.contains_key(cleared[i].workspace@)
        && choice.picks(instances[cleared[i].workspace@]) by {
        assert(cleared[i]@.workspace == cleared[i].workspace@);
    }
    assert forall|i: int, j: int| 0 <= i < j < cleared.len() implies (
    #[trigger] cleared[i]).workspace@ != (#[trigger] cleared[j]).workspace@ by {
        assert(cleared[i]@.workspace != cleared[j]@.workspace);
    }
    if instances.contains_key(workspace) && choice.picks(instances[workspace]) {
        let i = choose|i: int|
            0 <= i < cleared.len() && (#[trigger] cleared[i])@.workspace == workspace;
        assert(cleared[i].workspace@ == workspace);
    }
}

/// To pin a process, or to take its pin away, makes and ends no instance, sets the pin of exactly
/// the instances of that process, and changes nothing else of any.
pub proof fn law_pin_is_set_for_the_process_alone(
    instances: Instances,
    pid: u32,
    pinned: bool,
    workspace: Seq<char>,
)
    ensures
        ({
            let after = with_pins(instances, pid, pinned);
            &&& after.contains_key(workspace) <==> instances.contains_key(workspace)
            &&& instances.contains_key(workspace) ==> {
                let (old_one, new_one) = (instances[workspace], after[workspace]);
                &&& new_one.pinned == if old_one.pid == pid {
                    pinned
                } else {
                    old_one.pinned
                }
                &&& new_one.pid == old_one.pid
                &&& new_one.last_used == old_one.last_used
                &&& new_one.active_client_id == old_one.active_client_id
                &&& new_one.clients == old_one.clients
                &&& new_one.mapper == old_one.mapper
            }
        }),
{
}

/// A client that disconnects leaves every instance running, and takes from the one of its workspace
/// nothing but its own attachment: process, last use, active client, pin, waiting requests, ids and
/// the remembered answer to initialize stay, and so do the other clients. All other instances stay
/// as they are.
pub proof fn law_disconnect_takes_only_the_client(
    manager: ManagerView,
    key: Seq<char>,
    client_id: u32,
    workspace: Seq<char>,
    other: u32,
)
    ensures
        ({
            let left = manager.detach(key, client_id);
            &&& left.instances.contains_key(workspace) <==> manager.instances.contains_key(workspace)
            &&& manager.instances.contains_key(workspace) ==> {
                let (before, after) = (manager.instances[workspace], left.instances[workspace]);
                &&& after.clients.contains(other) <==> before.clients.contains(other) && !(workspace
                    == key && other == client_id)
                &&& after.pid == before.pid
                &&& after.last_used == before.last_used
                &&& after.active_client_id == before.active_client_id
                &&& after.pinned == before.pinned
                &&& after.mapper.next == before.mapper.next
                &&& after.mapper.pending == before.mapper.pending
                &&& after.mapper.routes == before.mapper.routes
                &&& after.mapper.cache == before.mapper.cache
            }
        }),
{
}

/// A client that disconnects does not keep the answers of others from reaching them: what waits is
/// answered as if it had stayed.
pub proof fn law_disconnect_of_one_does_not_cut_off_another(
    manager: ManagerView,
    handle: HandleView,
    gone: u32,
    members: Map<Seq<char>, JsonView>,
    number: i64,
)
    requires
        manager.instances.contains_key(handle.key),
        manager.instances[handle.key].pid == handle.pid,
        answers(manager.instances[handle.key].mapper, members, number),
        manager.instances[handle.key].mapper.pending[number].client_id != 0,
        manager.instances[handle.key].mapper.pending[number].client_id != gone,
    ensures
        manager.detach(handle.key, gone).on_server_message(handle, JsonView::Object(members)).1
            == manager.on_server_message(handle, JsonView::Object(members)).1,
        manager.detach(handle.key, gone).on_server_message(handle, JsonView::Object(members)).1
            is Some,
{
    let instance = manager.instances[handle.key];
    law_leaving_takes_only_the_client(instance, gone, instance.mapper.pending[number].client_id);
    law_answer_is_for_the_asker_alone(instance, members, number);
    law_answer_is_for_the_asker_alone(instance.without_client(gone), members, number);
}

/// Which language servers are started, and what is set for projects, no step changes.
pub proof fn law_settings_stay(manager: ManagerView, step: Step)
    ensures
        manager.after(step).default_path == manager.default_path,
        manager.after(step).overrides == manager.overrides,
{
}

/// The bytes of a client go through the instance of its workspace where that is still the process
/// that it was bound to, and through no other; where it is not, nothing happens and nothing goes
/// on.
pub proof fn law_messages_go_through_the_bound_process(
    manager: ManagerView,
    handle: HandleView,
    client_id: u32,
    bytes: Seq<u8>,
    now: i64,
    packet: JsonView,
)
    ensures
        ({
            let bound = manager.instances.contains_key(handle.key)
                && manager.instances[handle.key].pid == handle.pid;
            let instance = manager.instances[handle.key];
            let (sent, forwarded) = manager.on_client_message(handle, client_id, bytes, now);
            let (answered, delivery) = manager.on_server_message(handle, packet);
            &&& !bound ==> sent == manager && forwarded is None && answered == manager && delivery
                is None
            &&& bound ==> forwarded == Some(instance.on_client_message(client_id, bytes, now).1)
                && sent.instances == manager.instances.insert(
                handle.key,
                instance.on_client_message(client_id, bytes, now).0,
            )
            &&& bound ==> delivery == Some(instance.on_server_message(packet).1)
                && answered.instances == manager.instances.insert(
                handle.key,
                instance.on_server_message(packet).0,
            )
        }),
{
}

/// The answer to initialize from memory is that of the instance of the workspace.
pub proof fn law_memory_is_of_the_workspace(
    manager: ManagerView,
    key: Seq<char>,
    request_id: JsonView,
    members: Map<Seq<char>, JsonView>,
    id: IdView,
)
    ensures
        !manager.instances.contains_key(key) ==> manager.cached_initialize(key, request_id) is None,
        manager.instances.contains_key(key) && manager.instances[key].mapper.cache == Some(
            JsonView::Object(members),
        ) && names_id(request_id, id) ==> manager.cached_initialize(key, request_id) == Some(
            JsonView::Object(members.insert("id"@, request_id)),
        ),
        manager.instances.contains_key(key) && manager.instances[key].mapper.cache is None
            ==> manager.cached_initialize(key, request_id) is None,
{
    if manager.instances.contains_key(key) {
        law_initialize_from_memory_takes_an_id(manager.instances[key], members, request_id, id);
    }
}

/// A client that is given a new instance finds it fresh, and is its only and its active client.
pub proof fn law_new_instance_is_fresh_but_for_its_client(
    manager: ManagerView,
    client_id: u32,
    key: Seq<char>,
    pid: u32,
    now: i64,
    other: u32,
    number: i64,
)
    ensures
        ({
            let (after, action) = manager.spawn(client_id, key, SpawnEvent::Started { pid, now });
            let instance = after.instances[key];
            &&& action == (SpawnActionView::Attached {
                handle: HandleView { key, pid },
                reused: false,
            })
            &&& after.instances.contains_key(key)
            &&& instance.pid == pid
            &&& instance.last_used == now
            &&& instance.active_client_id == client_id
            &&& instance.clients.contains(other) <==> other == client_id
            &&& !instance.pinned
            &&& instance.mapper.next == 1
            &&& !instance.mapper.pending.contains_key(number)
            &&& instance.mapper.cache is None
        }),
{
}

/// To ask for an instance, and to hear that one has been shut down, changes nothing yet; what comes
/// next is to look after the instance that is there, or to start one. An instance that is gone when
/// its health is known is not missed: a new one is started.
pub proof fn law_asking_for_an_instance_changes_nothing(
    manager: ManagerView,
    client_id: u32,
    key: Seq<char>,
    healthy: bool,
)
    ensures
        manager.spawn(client_id, key, SpawnEvent::Requested) == (
            manager,
            if manager.instances.contains_key(key) {
                SpawnActionView::CheckHealth { pid: manager.instances[key].pid }
            } else {
                SpawnActionView::Start
            },
        ),
        manager.spawn(client_id, key, SpawnEvent::ShutDown) == (manager, SpawnActionView::Start),
        !manager.instances.contains_key(key) ==> manager.spawn(
            client_id,
            key,
            SpawnEvent::Health { healthy },
        ) == (manager, SpawnActionView::Start),
{
}

/// The language server is that of the first project which asks for one and which is the workspace
/// directory; where there is no such project, or no directory, it is the default one.
pub proof fn law_first_matching_project_decides(
    manager: ManagerView,
    dir: Seq<char>,
    same_dir: Seq<bool>,
    at: int,
)
    requires
        same_dir.len() == manager.overrides.len(),
        0 <= at <= manager.overrides.len(),
        forall|i: int|
            0 <= i < at ==> (#[trigger] manager.overrides[i]).1 is None || (!same_path(
                dir,
                manager.overrides[i].0,
            ) && !same_dir[i]),
    ensures
        manager.lsp_server_path(None, same_dir) == manager.default_path,
        at == manager.overrides.len() ==> manager.lsp_server_path(Some(dir), same_dir)
            == manager.default_path,
        at < manager.overrides.len() && manager.overrides[at].1 is Some && (same_path(
            dir,
            manager.overrides[at].0,
        ) || same_dir[at]) ==> manager.lsp_server_path(Some(dir), same_dir)
            == manager.overrides[at].1->0,
{
    lemma_first_override(manager.overrides, dir, same_dir, at);
}

proof fn lemma_first_override(
    overrides: Seq<OverrideView>,
    dir: Seq<char>,
    same_dir: Seq<bool>,
    at: int,
)
    requires
        same_dir.len() == overrides.len(),
        0 <= at <= overrides.len(),
        forall|i: int|
            0 <= i < at ==> (#[trigger] overrides[i]).1 is None || (!same_path(dir, overrides[i].0)
                && !same_dir[i]),
    ensures
        at == overrides.len() ==> first_override(overrides, dir, same_dir) is None,
        at < overrides.len() && overrides[at].1 is Some && (same_path(dir, overrides[at].0)
            || same_dir[at]) ==> first_override(overrides, dir, same_dir) == overrides[at].1,
    decreases overrides.len(),
{
    if at > 0 {
        let (rest, rest_dir) = (overrides.drop_first(), same_dir.drop_first());
        assert(overrides[0].1 is None || (!same_path(dir, overrides[0].0) && !same_dir[0]));
        assert forall|i: int| 0 <= i < at - 1 implies (#[trigger] rest[i]).1 is None || (!same_path(
            dir,
            rest[i].0,
        ) && !rest_dir[i]) by {
            assert(rest[i] == overrides[i + 1]);
            assert(rest_dir[i] == same_dir[i + 1]);
        }
        lemma_first_override(rest, dir, rest_dir, at - 1);
    }
}

} // verus!
