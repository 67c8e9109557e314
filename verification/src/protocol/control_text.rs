//! The text of control messages: JSON objects whose member `type` names the message and whose other
//! members are its fields.

use serde_json::Value;
use vstd::prelude::*;
use vstd::string::*;
use vstd::utf8::*;

use super::msg::{
    cleared_view, statuses_view, ClearedInstance, ClearedView, ControlMessage, ControlView,
    InstanceStatus, ServerStatus, StatusView,
};
use crate::json::{
    array_value, empty_object, flag_value, integer_value, json_of, json_text, member,
    natural_value, opt_json_of, parse, parsed_json, put_member, render, text_value, JsonView,
    NumberView, MAX_NESTING,
};
use crate::text::{decimal, decimal_text, same_text};

verus! {

pub open spec fn number_json(number: int) -> JsonView {
    JsonView::Number(NumberView::Integer(number))
}

/// The members of a message that has no field.
pub open spec fn tagged(tag: Seq<char>) -> Map<Seq<char>, JsonView> {
    Map::empty().insert("type"@, JsonView::Text(tag))
}

pub open spec fn cleared_json(entry: ClearedView) -> JsonView {
    JsonView::Object(
        Map::empty().insert("workspace"@, JsonView::Text(entry.workspace)).insert(
            "pid"@,
            number_json(entry.pid as int),
        ),
    )
}

pub open spec fn status_json(status: StatusView) -> JsonView {
    JsonView::Object(
        Map::empty().insert("workspace"@, JsonView::Text(status.workspace)).insert(
            "pid"@,
            number_json(status.pid as int),
        ).insert("client_count"@, number_json(status.client_count as int)).insert(
            "idle_secs"@,
            number_json(status.idle_secs as int),
        ).insert("healthy"@, JsonView::Bool(status.healthy)),
    )
}

pub open spec fn instances_json(instances: Seq<StatusView>) -> JsonView {
    JsonView::Object(
        Map::empty().insert(
            "instances"@,
            JsonView::Array(instances.map_values(|status: StatusView| status_json(status))),
        ),
    )
}

pub open spec fn pins_json(pins: Seq<bool>) -> JsonView {
    JsonView::Array(pins.map_values(|pin: bool| JsonView::Bool(pin)))
}

/// The JSON value of a control message. Pins are left out where there are none.
pub open spec fn control_json(message: ControlView) -> JsonView {
    JsonView::Object(
        match message {
            ControlView::StatusRequest => tagged("status_request"@),
            ControlView::StatusResponse { instances, pins } => {
                let members = tagged("status_response"@).insert(
                    "status"@,
                    instances_json(instances),
                );
                if pins.len() == 0 {
                    members
                } else {
                    members.insert("pins"@, pins_json(pins))
                }
            },
            ControlView::ClearRequest { force } => tagged("clear_request"@).insert(
                "force"@,
                JsonView::Bool(force),
            ),
            ControlView::ClearResponse { cleared } => tagged("clear_response"@).insert(
                "cleared"@,
                JsonView::Array(cleared.map_values(|entry: ClearedView| cleared_json(entry))),
            ),
            ControlView::PinRequest { pid, pinned } => tagged("pin_request"@).insert(
                "pid"@,
                number_json(pid as int),
            ).insert("pinned"@, JsonView::Bool(pinned)),
            ControlView::PinResponse { found } => tagged("pin_response"@).insert(
                "found"@,
                JsonView::Bool(found),
            ),
            ControlView::Error { message } => tagged("error"@).insert(
                "message"@,
                JsonView::Text(message),
            ),
        },
    )
}

/// How the fields of a message are found in a value.
impl JsonView {
    /// A field: the member of an object under its name, or the item at its place in an array that
    /// has as many items as there are fields.
    pub open spec fn field(self, name: Seq<char>, at: int, count: int) -> Option<JsonView> {
        match self {
            JsonView::Array(items) => if items.len() == count {
                Some(items[at])
            } else {
                None
            },
            _ => self.member(name),
        }
    }

    /// The name of the message, which comes first in an array.
    pub open spec fn tag(self) -> Option<Seq<char>> {
        match self {
            JsonView::Array(items) => if items.len() > 0 {
                items[0].text()
            } else {
                None
            },
            _ => match self.member("type"@) {
                Some(tag) => tag.text(),
                None => None,
            },
        }
    }

    pub open spec fn text_field(self, name: Seq<char>, at: int, count: int) -> Option<Seq<char>> {
        match self.field(name, at, count) {
            Some(value) => value.text(),
            None => None,
        }
    }

    pub open spec fn flag_field(self, name: Seq<char>, at: int, count: int) -> Option<bool> {
        match self.field(name, at, count) {
            Some(value) => value.flag(),
            None => None,
        }
    }

    /// A field that is a number between zero and `limit`.
    pub open spec fn natural_field(
        self,
        name: Seq<char>,
        at: int,
        count: int,
        limit: u64,
    ) -> Option<u64> {
        match self.field(name, at, count) {
            Some(value) => match value.natural() {
                Some(number) => if number <= limit {
                    Some(number)
                } else {
                    None
                },
                None => None,
            },
            None => None,
        }
    }

    pub open spec fn integer_field(self, name: Seq<char>, at: int, count: int) -> Option<i64> {
        match self.field(name, at, count) {
            Some(value) => value.integer(),
            None => None,
        }
    }

    pub open spec fn cleared(self) -> Option<ClearedView> {
        match (
            self.text_field("workspace"@, 0, 2),
            self.natural_field("pid"@, 1, 2, u32::MAX as u64),
        ) {
            (Some(workspace), Some(pid)) => Some(ClearedView { workspace, pid: pid as u32 }),
            _ => None,
        }
    }

    pub open spec fn status(self) -> Option<StatusView> {
        match (
            self.text_field("workspace"@, 0, 5),
            self.natural_field("pid"@, 1, 5, u32::MAX as u64),
            self.natural_field("client_count"@, 2, 5, usize::MAX as u64),
            self.integer_field("idle_secs"@, 3, 5),
            self.flag_field("healthy"@, 4, 5),
        ) {
            (
                Some(workspace),
                Some(pid),
                Some(client_count),
                Some(idle_secs),
                Some(healthy),
            ) => Some(
                StatusView {
                    workspace,
                    pid: pid as u32,
                    client_count: client_count as usize,
                    idle_secs,
                    healthy,
                },
            ),
            _ => None,
        }
    }

    pub open spec fn cleared_list(self) -> Option<Seq<ClearedView>> {
        match self {
            JsonView::Array(items) => if forall|i: int|
                0 <= i < items.len() ==> (#[trigger] items[i]).cleared() is Some {
                Some(items.map_values(|item: JsonView| item.cleared()->0))
            } else {
                None
            },
            _ => None,
        }
    }

    pub open spec fn status_list(self) -> Option<Seq<StatusView>> {
        match self {
            JsonView::Array(items) => if forall|i: int|
                0 <= i < items.len() ==> (#[trigger] items[i]).status() is Some {
                Some(items.map_values(|item: JsonView| item.status()->0))
            } else {
                None
            },
            _ => None,
        }
    }

    pub open spec fn flag_list(self) -> Option<Seq<bool>> {
        match self {
            JsonView::Array(items) => if forall|i: int|
                0 <= i < items.len() ==> (#[trigger] items[i]).flag() is Some {
                Some(items.map_values(|item: JsonView| item.flag()->0))
            } else {
                None
            },
            _ => None,
        }
    }

    /// How many fields a status has, next to its name: pins may be left out.
    pub open spec fn status_fields(self) -> int {
        match self {
            JsonView::Array(items) => if items.len() == 3 {
                3
            } else {
                2
            },
            _ => 3,
        }
    }

    pub open spec fn status_response(self) -> Option<ControlView> {
        let count = self.status_fields();
        let instances = match self.field("status"@, 1, count) {
            Some(status) => match status.field("instances"@, 0, 1) {
                Some(instances) => instances.status_list(),
                None => None,
            },
            None => None,
        };
        let pins = if count == 3 {
            match self.field("pins"@, 2, 3) {
                Some(pins) => pins.flag_list(),
                None => Some(Seq::empty()),
            }
        } else {
            Some(Seq::empty())
        };
        match (instances, pins) {
            (Some(instances), Some(pins)) => Some(ControlView::StatusResponse { instances, pins }),
            _ => None,
        }
    }

    /// The control message that a value is.
    pub open spec fn control(self) -> Option<ControlView> {
        match self.tag() {
            None => None,
            Some(tag) => if tag == "status_request"@ {
                match self {
                    JsonView::Array(items) => if items.len() == 1 {
                        Some(ControlView::StatusRequest)
                    } else {
                        None
                    },
                    _ => Some(ControlView::StatusRequest),
                }
            } else if tag == "status_response"@ {
                self.status_response()
            } else if tag == "clear_request"@ {
                match self.flag_field("force"@, 1, 2) {
                    Some(force) => Some(ControlView::ClearRequest { force }),
                    None => None,
                }
            } else if tag == "clear_response"@ {
                match self.field("cleared"@, 1, 2) {
                    Some(list) => match list.cleared_list() {
                        Some(cleared) => Some(ControlView::ClearResponse { cleared }),
                        None => None,
                    },
                    None => None,
                }
            } else if tag == "pin_request"@ {
                match (
                    self.natural_field("pid"@, 1, 3, u32::MAX as u64),
                    self.flag_field("pinned"@, 2, 3),
                ) {
                    (Some(pid), Some(pinned)) => Some(
                        ControlView::PinRequest { pid: pid as u32, pinned },
                    ),
                    _ => None,
                }
            } else if tag == "pin_response"@ {
                match self.flag_field("found"@, 1, 2) {
                    Some(found) => Some(ControlView::PinResponse { found }),
                    None => None,
                }
            } else if tag == "error"@ {
                match self.text_field("message"@, 1, 2) {
                    Some(message) => Some(ControlView::Error { message }),
                    None => None,
                }
            } else {
                None
            },
        }
    }
}

/// The control message that a text is.
pub open spec fn control_read(text: Seq<u8>) -> Option<ControlView> {
    match parsed_json(text) {
        Some(value) => value.control(),
        None => None,
    }
}

fn field<'a>(value: &'a Value, name: &str, at: usize, count: usize) -> (found: Option<&'a Value>)
    requires
        at < count,
    ensures
        opt_json_of(found) == json_of(*value).field(name@, at as int, count as int),
{
    match value.as_array() {
        Some(items) => if items.len() == count {
            Some(&items[at])
        } else {
            None
        },
        None => member(value, name),
    }
}

fn tag(value: &Value) -> (tag: Option<&str>)
    ensures
        match tag {
            Some(tag) => json_of(*value).tag() == Some(tag@),
            None => json_of(*value).tag() is None,
        },
{
    match value.as_array() {
        Some(items) => if items.len() > 0 {
            items[0].as_str()
        } else {
            None
        },
        None => match member(value, "type") {
            Some(tag) => tag.as_str(),
            None => None,
        },
    }
}

fn text_field<'a>(value: &'a Value, name: &str, at: usize, count: usize) -> (text: Option<&'a str>)
    requires
        at < count,
    ensures
        match text {
            Some(text) => json_of(*value).text_field(name@, at as int, count as int) == Some(text@),
            None => json_of(*value).text_field(name@, at as int, count as int) is None,
        },
{
    match field(value, name, at, count) {
        Some(found) => found.as_str(),
        None => None,
    }
}

fn flag_field(value: &Value, name: &str, at: usize, count: usize) -> (flag: Option<bool>)
    requires
        at < count,
    ensures
        flag == json_of(*value).flag_field(name@, at as int, count as int),
{
    match field(value, name, at, count) {
        Some(found) => found.as_bool(),
        None => None,
    }
}

fn natural_field(value: &Value, name: &str, at: usize, count: usize, limit: u64) -> (number: Option<
    u64,
>)
    requires
        at < count,
    ensures
        number == json_of(*value).natural_field(name@, at as int, count as int, limit),
{
    match field(value, name, at, count) {
        Some(found) => match found.as_u64() {
            Some(number) => if number <= limit {
                Some(number)
            } else {
                None
            },
            None => None,
        },
        None => None,
    }
}

fn integer_field(value: &Value, name: &str, at: usize, count: usize) -> (number: Option<i64>)
    requires
        at < count,
    ensures
        number == json_of(*value).integer_field(name@, at as int, count as int),
{
    match field(value, name, at, count) {
        Some(found) => found.as_i64(),
        None => None,
    }
}

fn read_cleared(value: &Value) -> (entry: Option<ClearedInstance>)
    ensures
        match entry {
            Some(entry) => json_of(*value).cleared() == Some(entry@),
            None => json_of(*value).cleared() is None,
        },
{
    match (
        text_field(value, "workspace", 0, 2),
        natural_field(value, "pid", 1, 2, u32::MAX as u64),
    ) {
        (Some(workspace), Some(pid)) => Some(
            ClearedInstance { workspace: workspace.to_string(), pid: pid as u32 },
        ),
        _ => None,
    }
}

fn read_status(value: &Value) -> (status: Option<InstanceStatus>)
    ensures
        match status {
            Some(status) => json_of(*value).status() == Some(status@),
            None => json_of(*value).status() is None,
        },
{
    match (
        text_field(value, "workspace", 0, 5),
        natural_field(value, "pid", 1, 5, u32::MAX as u64),
        natural_field(value, "client_count", 2, 5, usize::MAX as u64),
        integer_field(value, "idle_secs", 3, 5),
        flag_field(value, "healthy", 4, 5),
    ) {
        (Some(workspace), Some(pid), Some(client_count), Some(idle_secs), Some(healthy)) => Some(
            InstanceStatus {
                workspace: workspace.to_string(),
                pid: pid as u32,
                client_count: client_count as usize,
                idle_secs,
                healthy,
            },
        ),
        _ => None,
    }
}

fn read_cleared_list(value: &Value) -> (list: Option<Vec<ClearedInstance>>)
    ensures
        match list {
            Some(list) => json_of(*value).cleared_list() == Some(cleared_view(list@)),
            None => json_of(*value).cleared_list() is None,
        },
{
    let items = match value.as_array() {
        Some(items) => items,
        None => return None,
    };
    let ghost views = items@.map_values(|item: Value| json_of(item));
    let mut list: Vec<ClearedInstance> = Vec::new();
    let mut i: usize = 0;
    while i < items.len()
        invariant
            views == items@.map_values(|item: Value| json_of(item)),
            json_of(*value) == JsonView::Array(views),
            i <= items@.len(),
            list@.len() == i,
            forall|j: int| 0 <= j < i ==> (#[trigger] views[j]).cleared() == Some(list@[j]@),
        decreases items@.len() - i,
    {
        assert(views[i as int] == json_of(items@[i as int]));
        match read_cleared(&items[i]) {
            Some(entry) => list.push(entry),
            None => return None,
        }
        i = i + 1;
    }
    assert(cleared_view(list@) =~= views.map_values(|item: JsonView| item.cleared()->0));
    Some(list)
}

fn read_status_list(value: &Value) -> (list: Option<Vec<InstanceStatus>>)
    ensures
        match list {
            Some(list) => json_of(*value).status_list() == Some(statuses_view(list@)),
            None => json_of(*value).status_list() is None,
        },
{
    let items = match value.as_array() {
        Some(items) => items,
        None => return None,
    };
    let ghost views = items@.map_values(|item: Value| json_of(item));
    let mut list: Vec<InstanceStatus> = Vec::new();
    let mut i: usize = 0;
    while i < items.len()
        invariant
            views == items@.map_values(|item: Value| json_of(item)),
            json_of(*value) == JsonView::Array(views),
            i <= items@.len(),
            list@.len() == i,
            forall|j: int| 0 <= j < i ==> (#[trigger] views[j]).status() == Some(list@[j]@),
        decreases items@.len() - i,
    {
        assert(views[i as int] == json_of(items@[i as int]));
        match read_status(&items[i]) {
            Some(status) => list.push(status),
            None => return None,
        }
        i = i + 1;
    }
    assert(statuses_view(list@) =~= views.map_values(|item: JsonView| item.status()->0));
    Some(list)
}

fn read_flag_list(value: &Value) -> (list: Option<Vec<bool>>)
    ensures
        match list {
            Some(list) => json_of(*value).flag_list() == Some(list@),
            None => json_of(*value).flag_list() is None,
        },
{
    let items = match value.as_array() {
        Some(items) => items,
        None => return None,
    };
    let ghost views = items@.map_values(|item: Value| json_of(item));
    let mut list: Vec<bool> = Vec::new();
    let mut i: usize = 0;
    while i < items.len()
        invariant
            views == items@.map_values(|item: Value| json_of(item)),
            json_of(*value) == JsonView::Array(views),
            i <= items@.len(),
            list@.len() == i,
            forall|j: int| 0 <= j < i ==> (#[trigger] views[j]).flag() == Some(list@[j]),
        decreases items@.len() - i,
    {
        assert(views[i as int] == json_of(items@[i as int]));
        match items[i].as_bool() {
            Some(flag) => list.push(flag),
            None => return None,
        }
        i = i + 1;
    }
    assert(list@ =~= views.map_values(|item: JsonView| item.flag()->0));
    Some(list)
}

fn read_status_response(value: &Value) -> (message: Option<ControlMessage>)
    ensures
        match message {
            Some(message) => json_of(*value).status_response() == Some(message@),
            None => json_of(*value).status_response() is None,
        },
{
    let count: usize = match value.as_array() {
        Some(items) => if items.len() == 3 {
            3
        } else {
            2
        },
        None => 3,
    };
    let instances = match field(value, "status", 1, count) {
        Some(status) => match field(status, "instances", 0, 1) {
            Some(list) => match read_status_list(list) {
                Some(instances) => instances,
                None => return None,
            },
            None => return None,
        },
        None => return None,
    };
    let mut pins: Vec<bool> = Vec::new();
    if count == 3 {
        if let Some(list) = field(value, "pins", 2, 3) {
            match read_flag_list(list) {
                Some(flags) => pins = flags,
                None => return None,
            }
        }
    }
    assert(json_of(*value).field("pins"@, 2, 3) is None ==> pins@ =~= Seq::empty());
    assert(count == 2 ==> pins@ =~= Seq::empty());
    Some(ControlMessage::StatusResponse { status: ServerStatus { instances }, pins })
}

fn read_message(value: &Value) -> (message: Option<ControlMessage>)
    ensures
        match message {
            Some(message) => json_of(*value).control() == Some(message@),
            None => json_of(*value).control() is None,
        },
{
    let tag = match tag(value) {
        Some(tag) => tag,
        None => return None,
    };
    if same_text(tag, "status_request") {
        match value.as_array() {
            Some(items) => if items.len() == 1 {
                Some(ControlMessage::StatusRequest)
            } else {
                None
            },
            None => Some(ControlMessage::StatusRequest),
        }
    } else if same_text(tag, "status_response") {
        read_status_response(value)
    } else if same_text(tag, "clear_request") {
        match flag_field(value, "force", 1, 2) {
            Some(force) => Some(ControlMessage::ClearRequest { force }),
            None => None,
        }
    } else if same_text(tag, "clear_response") {
        match field(value, "cleared", 1, 2) {
            Some(list) => match read_cleared_list(list) {
                Some(cleared) => Some(ControlMessage::ClearResponse { cleared }),
                None => None,
            },
            None => None,
        }
    } else if same_text(tag, "pin_request") {
        match (natural_field(value, "pid", 1, 3, u32::MAX as u64), flag_field(value, "pinned", 2, 3)) {
            (Some(pid), Some(pinned)) => Some(
                ControlMessage::PinRequest { pid: pid as u32, pinned },
            ),
            _ => None,
        }
    } else if same_text(tag, "pin_response") {
        match flag_field(value, "found", 1, 2) {
            Some(found) => Some(ControlMessage::PinResponse { found }),
            None => None,
        }
    } else if same_text(tag, "error") {
        match text_field(value, "message", 1, 2) {
            Some(message) => Some(ControlMessage::Error { message: message.to_string() }),
            None => None,
        }
    } else {
        None
    }
}

/// Reads the control message that a text is. Members that are no fields are passed over; of a
/// member that is given twice the last one counts.
pub fn read_control(text: &[u8]) -> (message: Option<ControlMessage>)
    ensures
        match message {
            Some(message) => control_read(text@) == Some(message@),
            None => control_read(text@) is None,
        },
{
    match parse(text) {
        Ok(value) => read_message(&value),
        Err(_) => None,
    }
}

fn cleared_value(entry: &ClearedInstance) -> (value: Value)
    ensures
        json_of(value) == cleared_json(entry@),
{
    let mut value = empty_object();
    put_member(&mut value, "workspace".to_string(), text_value(entry.workspace.clone()));
    put_member(&mut value, "pid".to_string(), natural_value(entry.pid as u64));
    value
}

fn status_value(status: &InstanceStatus) -> (value: Value)
    ensures
        json_of(value) == status_json(status@),
{
    let mut value = empty_object();
    put_member(&mut value, "workspace".to_string(), text_value(status.workspace.clone()));
    put_member(&mut value, "pid".to_string(), natural_value(status.pid as u64));
    put_member(&mut value, "client_count".to_string(), natural_value(status.client_count as u64));
    put_member(&mut value, "idle_secs".to_string(), integer_value(status.idle_secs));
    put_member(&mut value, "healthy".to_string(), flag_value(status.healthy));
    value
}

fn instances_value(instances: &Vec<InstanceStatus>) -> (value: Value)
    ensures
        json_of(value) == instances_json(statuses_view(instances@)),
{
    let mut items: Vec<Value> = Vec::new();
    let ghost views = statuses_view(instances@);
    let mut i: usize = 0;
    while i < instances.len()
        invariant
            views == statuses_view(instances@),
            i <= instances@.len(),
            items@.len() == i,
            forall|j: int| 0 <= j < i ==> json_of(#[trigger] items@[j]) == status_json(views[j]),
        decreases instances@.len() - i,
    {
        items.push(status_value(&instances[i]));
        i = i + 1;
    }
    assert(items@.map_values(|item: Value| json_of(item)) =~= views.map_values(
        |status: StatusView| status_json(status),
    ));
    let mut value = empty_object();
    put_member(&mut value, "instances".to_string(), array_value(items));
    value
}

fn cleared_list_value(cleared: &Vec<ClearedInstance>) -> (value: Value)
    ensures
        json_of(value) == JsonView::Array(
            cleared_view(cleared@).map_values(|entry: ClearedView| cleared_json(entry)),
        ),
{
    let mut items: Vec<Value> = Vec::new();
    let ghost views = cleared_view(cleared@);
    let mut i: usize = 0;
    while i < cleared.len()
        invariant
            views == cleared_view(cleared@),
            i <= cleared@.len(),
            items@.len() == i,
            forall|j: int| 0 <= j < i ==> json_of(#[trigger] items@[j]) == cleared_json(views[j]),
        decreases cleared@.len() - i,
    {
        items.push(cleared_value(&cleared[i]));
        i = i + 1;
    }
    assert(items@.map_values(|item: Value| json_of(item)) =~= views.map_values(
        |entry: ClearedView| cleared_json(entry),
    ));
    array_value(items)
}

fn pins_value(pins: &Vec<bool>) -> (value: Value)
    ensures
        json_of(value) == pins_json(pins@),
{
    let mut items: Vec<Value> = Vec::new();
    let mut i: usize = 0;
    while i < pins.len()
        invariant
            i <= pins@.len(),
            items@.len() == i,
            forall|j: int| 0 <= j < i ==> json_of(#[trigger] items@[j]) == JsonView::Bool(pins@[j]),
        decreases pins@.len() - i,
    {
        items.push(flag_value(pins[i]));
        i = i + 1;
    }
    assert(items@.map_values(|item: Value| json_of(item)) =~= pins@.map_values(
        |pin: bool| JsonView::Bool(pin),
    ));
    array_value(items)
}

fn tagged_value(tag: &str) -> (value: Value)
    ensures
        json_of(value) == JsonView::Object(tagged(tag@)),
{
    let mut value = empty_object();
    put_member(&mut value, "type".to_string(), text_value(tag.to_string()));
    value
}

fn control_value(message: &ControlMessage) -> (value: Value)
    ensures
        json_of(value) == control_json(message@),
{
    match message {
        ControlMessage::StatusRequest => tagged_value("status_request"),
        ControlMessage::StatusResponse { status, pins } => {
            let mut value = tagged_value("status_response");
            put_member(&mut value, "status".to_string(), instances_value(&status.instances));
            if pins.len() > 0 {
                put_member(&mut value, "pins".to_string(), pins_value(pins));
            }
            value
        },
        ControlMessage::ClearRequest { force } => {
            let mut value = tagged_value("clear_request");
            put_member(&mut value, "force".to_string(), flag_value(*force));
            value
        },
        ControlMessage::ClearResponse { cleared } => {
            let mut value = tagged_value("clear_response");
            put_member(&mut value, "cleared".to_string(), cleared_list_value(cleared));
            value
        },
        ControlMessage::PinRequest { pid, pinned } => {
            let mut value = tagged_value("pin_request");
            put_member(&mut value, "pid".to_string(), natural_value(*pid as u64));
            put_member(&mut value, "pinned".to_string(), flag_value(*pinned));
            value
        },
        ControlMessage::PinResponse { found } => {
            let mut value = tagged_value("pin_response");
            put_member(&mut value, "found".to_string(), flag_value(*found));
            value
        },
        ControlMessage::Error { message } => {
            let mut value = tagged_value("error");
            put_member(&mut value, "message".to_string(), text_value(message.clone()));
            value
        },
    }
}

proof fn lemma_names_differ()
    ensures
        "type"@ != "status"@,
        "type"@ != "pins"@,
        "status"@ != "pins"@,
        "type"@ != "force"@,
        "type"@ != "cleared"@,
        "type"@ != "pid"@,
        "type"@ != "pinned"@,
        "pid"@ != "pinned"@,
        "type"@ != "found"@,
        "type"@ != "message"@,
        "workspace"@ != "pid"@,
        "workspace"@ != "client_count"@,
        "workspace"@ != "idle_secs"@,
        "workspace"@ != "healthy"@,
        "pid"@ != "client_count"@,
        "pid"@ != "idle_secs"@,
        "pid"@ != "healthy"@,
        "client_count"@ != "idle_secs"@,
        "client_count"@ != "healthy"@,
        "idle_secs"@ != "healthy"@,
{
    reveal_strlit("type");
    reveal_strlit("status");
    reveal_strlit("pins");
    reveal_strlit("force");
    reveal_strlit("cleared");
    reveal_strlit("pid");
    reveal_strlit("pinned");
    reveal_strlit("found");
    reveal_strlit("message");
    reveal_strlit("workspace");
    reveal_strlit("client_count");
    reveal_strlit("idle_secs");
    reveal_strlit("healthy");
    assert("type"@.len() == 4);
    assert("status"@.len() == 6);
    assert("pins"@.len() == 4);
    assert("force"@.len() == 5);
    assert("cleared"@.len() == 7);
    assert("pid"@.len() == 3);
    assert("pinned"@.len() == 6);
    assert("found"@.len() == 5);
    assert("message"@.len() == 7);
    assert("workspace"@.len() == 9);
    assert("client_count"@.len() == 12);
    assert("idle_secs"@.len() == 9);
    assert("healthy"@.len() == 7);
    assert("type"@[0] == 't' && "pins"@[0] == 'p');
    assert("workspace"@[0] == 'w' && "idle_secs"@[0] == 'i');
}

proof fn lemma_tags_differ()
    ensures
        "status_request"@ != "status_response"@,
        "status_request"@ != "clear_request"@,
        "status_request"@ != "clear_response"@,
        "status_request"@ != "pin_request"@,
        "status_request"@ != "pin_response"@,
        "status_request"@ != "error"@,
        "status_response"@ != "clear_request"@,
        "status_response"@ != "clear_response"@,
        "status_response"@ != "pin_request"@,
        "status_response"@ != "pin_response"@,
        "status_response"@ != "error"@,
        "clear_request"@ != "clear_response"@,
        "clear_request"@ != "pin_request"@,
        "clear_request"@ != "pin_response"@,
        "clear_request"@ != "error"@,
        "clear_response"@ != "pin_request"@,
        "clear_response"@ != "pin_response"@,
        "clear_response"@ != "error"@,
        "pin_request"@ != "pin_response"@,
        "pin_request"@ != "error"@,
        "pin_response"@ != "error"@,
{
    reveal_strlit("status_request");
    reveal_strlit("status_response");
    reveal_strlit("clear_request");
    reveal_strlit("clear_response");
    reveal_strlit("pin_request");
    reveal_strlit("pin_response");
    reveal_strlit("error");
    assert("status_request"@.len() == 14);
    assert("status_response"@.len() == 15);
    assert("clear_request"@.len() == 13);
    assert("clear_response"@.len() == 14);
    assert("pin_request"@.len() == 11);
    assert("pin_response"@.len() == 12);
    assert("error"@.len() == 5);
    assert("status_request"@[0] == 's' && "clear_response"@[0] == 'c');
}

/// The JSON value of a control message is read as the message.
pub proof fn law_control_json_reads_back(message: ControlView)
    ensures
        control_json(message).control() == Some(message),
{
    lemma_names_differ();
    lemma_tags_differ();
    let value = control_json(message);
    assert(value.member("type"@) is Some);
    match message {
        ControlView::StatusResponse { instances, pins } => {
            let items = instances.map_values(|status: StatusView| status_json(status));
            assert forall|i: int| 0 <= i < items.len() implies (#[trigger] items[i]).status()
                == Some(instances[i]) by {
                lemma_status_reads_back(instances[i]);
            }
            assert(items.map_values(|item: JsonView| item.status()->0) =~= instances);
            let flags = pins.map_values(|pin: bool| JsonView::Bool(pin));
            assert(flags.map_values(|item: JsonView| item.flag()->0) =~= pins);
            assert(value.member("status"@) == Some(instances_json(instances)));
            assert(instances_json(instances).member("instances"@) == Some(JsonView::Array(items)));
            assert(JsonView::Array(items).status_list() == Some(instances));
            if pins.len() == 0 {
                assert(pins =~= Seq::empty());
            } else {
                assert(value.member("pins"@) == Some(pins_json(pins)));
                assert(pins_json(pins).flag_list() == Some(pins));
            }
        },
        ControlView::ClearResponse { cleared } => {
            let items = cleared.map_values(|entry: ClearedView| cleared_json(entry));
            assert forall|i: int| 0 <= i < items.len() implies (#[trigger] items[i]).cleared()
                == Some(cleared[i]) by {
                assert(items[i] == cleared_json(cleared[i]));
            }
            assert(items.map_values(|item: JsonView| item.cleared()->0) =~= cleared);
            assert(JsonView::Array(items).cleared_list() == Some(cleared));
        },
        _ => {},
    }
}

proof fn lemma_status_reads_back(status: StatusView)
    ensures
        status_json(status).status() == Some(status),
{
    lemma_names_differ();
}

proof fn lemma_control_json_is_exact(message: ControlView)
    ensures
        control_json(message).exact_within(MAX_NESTING as nat),
{
    reveal_with_fuel(JsonView::exact_within, 6);
}

/// A string in JSON notation.
pub open spec fn quoted(text: Seq<char>) -> Seq<u8> {
    json_text(JsonView::Text(text))
}

pub open spec fn flag_text(flag: bool) -> Seq<u8> {
    encode_utf8(
        if flag {
            "true"@
        } else {
            "false"@
        },
    )
}

pub open spec fn number_text(number: int) -> Seq<u8> {
    encode_utf8(
        if number < 0 {
            "-"@ + decimal((-number) as nat)
        } else {
            decimal(number as nat)
        },
    )
}

/// Texts one after the other, a comma between any two.
pub open spec fn listed(texts: Seq<Seq<u8>>) -> Seq<u8>
    decreases texts.len(),
{
    if texts.len() == 0 {
        Seq::empty()
    } else if texts.len() == 1 {
        texts[0]
    } else {
        listed(texts.drop_last()) + encode_utf8(","@) + texts.last()
    }
}

pub open spec fn cleared_entry_text(entry: ClearedView) -> Seq<u8> {
    encode_utf8("{\"workspace\":"@) + quoted(entry.workspace) + encode_utf8(",\"pid\":"@)
        + number_text(entry.pid as int) + encode_utf8("}"@)
}

pub open spec fn status_entry_text(status: StatusView) -> Seq<u8> {
    encode_utf8("{\"workspace\":"@) + quoted(status.workspace) + encode_utf8(",\"pid\":"@)
        + number_text(status.pid as int) + encode_utf8(",\"client_count\":"@) + number_text(
        status.client_count as int,
    ) + encode_utf8(",\"idle_secs\":"@) + number_text(status.idle_secs as int) + encode_utf8(
        ",\"healthy\":"@,
    ) + flag_text(status.healthy) + encode_utf8("}"@)
}

/// The text of a control message with its fields in the order in which they are declared.
pub open spec fn control_text(message: ControlView) -> Seq<u8> {
    match message {
        ControlView::StatusRequest => encode_utf8("{\"type\":\"status_request\"}"@),
        ControlView::StatusResponse { instances, pins } => encode_utf8(
            "{\"type\":\"status_response\",\"status\":{\"instances\":["@,
        ) + listed(instances.map_values(|status: StatusView| status_entry_text(status)))
            + encode_utf8("]}"@) + (if pins.len() == 0 {
            Seq::empty()
        } else {
            encode_utf8(",\"pins\":["@) + listed(pins.map_values(|pin: bool| flag_text(pin)))
                + encode_utf8("]"@)
        }) + encode_utf8("}"@),
        ControlView::ClearRequest { force } => encode_utf8(
            "{\"type\":\"clear_request\",\"force\":"@,
        ) + flag_text(force) + encode_utf8("}"@),
        ControlView::ClearResponse { cleared } => encode_utf8(
            "{\"type\":\"clear_response\",\"cleared\":["@,
        ) + listed(cleared.map_values(|entry: ClearedView| cleared_entry_text(entry)))
            + encode_utf8("]}"@),
        ControlView::PinRequest { pid, pinned } => encode_utf8(
            "{\"type\":\"pin_request\",\"pid\":"@,
        ) + number_text(pid as int) + encode_utf8(",\"pinned\":"@) + flag_text(pinned)
            + encode_utf8("}"@),
        ControlView::PinResponse { found } => encode_utf8(
            "{\"type\":\"pin_response\",\"found\":"@,
        ) + flag_text(found) + encode_utf8("}"@),
        ControlView::Error { message } => encode_utf8("{\"type\":\"error\",\"message\":"@) + quoted(
            message,
        ) + encode_utf8("}"@),
    }
}

/// The text that a control message is sent as: with its fields as they are declared, as long as
/// that reads back as the message, or else as its JSON value is written.
pub open spec fn control_bytes(message: ControlView) -> Seq<u8> {
    if control_read(control_text(message)) == Some(message) {
        control_text(message)
    } else {
        json_text(control_json(message))
    }
}

fn put(out: &mut Vec<u8>, text: &str)
    ensures
        final(out)@ == old(out)@ + encode_utf8(text@),
{
    out.extend_from_slice(text.as_bytes());
}

fn put_flag(out: &mut Vec<u8>, flag: bool)
    ensures
        final(out)@ == old(out)@ + flag_text(flag),
{
    if flag {
        put(out, "true");
    } else {
        put(out, "false");
    }
}

fn put_natural(out: &mut Vec<u8>, number: u64)
    ensures
        final(out)@ == old(out)@ + number_text(number as int),
{
    put(out, decimal_text(number).as_str());
}

fn put_integer(out: &mut Vec<u8>, number: i64)
    ensures
        final(out)@ == old(out)@ + number_text(number as int),
{
    if number < 0 {
        let size: u64 = (-(number + 1)) as u64 + 1;
        put(out, "-".to_string().concat(decimal_text(size).as_str()).as_str());
    } else {
        put_natural(out, number as u64);
    }
}

fn put_quoted(out: &mut Vec<u8>, text: &String)
    ensures
        final(out)@ == old(out)@ + quoted(text@),
{
    if let Ok(quoted) = render(&text_value(text.clone())) {
        out.extend_from_slice(quoted.as_slice());
    }
}

fn put_cleared(out: &mut Vec<u8>, entry: &ClearedInstance)
    ensures
        final(out)@ == old(out)@ + cleared_entry_text(entry@),
{
    put(out, "{\"workspace\":");
    put_quoted(out, &entry.workspace);
    put(out, ",\"pid\":");
    put_natural(out, entry.pid as u64);
    put(out, "}");
    assert(out@ =~= old(out)@ + cleared_entry_text(entry@));
}

fn put_status(out: &mut Vec<u8>, status: &InstanceStatus)
    ensures
        final(out)@ == old(out)@ + status_entry_text(status@),
{
    let mut entry: Vec<u8> = Vec::new();
    put(&mut entry, "{\"workspace\":");
    assert(entry@ =~= encode_utf8("{\"workspace\":"@));
    put_quoted(&mut entry, &status.workspace);
    put(&mut entry, ",\"pid\":");
    put_natural(&mut entry, status.pid as u64);
    put(&mut entry, ",\"client_count\":");
    put_natural(&mut entry, status.client_count as u64);
    put(&mut entry, ",\"idle_secs\":");
    put_integer(&mut entry, status.idle_secs);
    put(&mut entry, ",\"healthy\":");
    put_flag(&mut entry, status.healthy);
    put(&mut entry, "}");
    out.extend_from_slice(entry.as_slice());
}

proof fn lemma_listed_more(texts: Seq<Seq<u8>>, count: int)
    requires
        0 <= count < texts.len(),
    ensures
        count == 0 ==> listed(texts.take(count + 1)) == texts[0],
        count > 0 ==> listed(texts.take(count + 1)) == listed(texts.take(count)) + encode_utf8(","@)
            + texts[count],
{
    assert(texts.take(count + 1).drop_last() =~= texts.take(count));
}

fn put_statuses(out: &mut Vec<u8>, instances: &Vec<InstanceStatus>)
    ensures
        final(out)@ == old(out)@ + listed(
            statuses_view(instances@).map_values(|status: StatusView| status_entry_text(status)),
        ),
{
    let ghost texts = statuses_view(instances@).map_values(
        |status: StatusView| status_entry_text(status),
    );
    let ghost before = out@;
    let mut i: usize = 0;
    assert(out@ =~= before + listed(texts.take(0)));
    while i < instances.len()
        invariant
            texts == statuses_view(instances@).map_values(
                |status: StatusView| status_entry_text(status),
            ),
            i <= instances@.len(),
            out@ == before + listed(texts.take(i as int)),
        decreases instances@.len() - i,
    {
        proof {
            lemma_listed_more(texts, i as int);
        }
        if i > 0 {
            put(out, ",");
        }
        put_status(out, &instances[i]);
        assert(texts[i as int] == status_entry_text(instances@[i as int]@));
        assert(out@ =~= before + listed(texts.take(i + 1)));
        i = i + 1;
    }
    assert(texts.take(i as int) =~= texts);
}

fn put_cleared_list(out: &mut Vec<u8>, cleared: &Vec<ClearedInstance>)
    ensures
        final(out)@ == old(out)@ + listed(
            cleared_view(cleared@).map_values(|entry: ClearedView| cleared_entry_text(entry)),
        ),
{
    let ghost texts = cleared_view(cleared@).map_values(
        |entry: ClearedView| cleared_entry_text(entry),
    );
    let ghost before = out@;
    let mut i: usize = 0;
    assert(out@ =~= before + listed(texts.take(0)));
    while i < cleared.len()
        invariant
            texts == cleared_view(cleared@).map_values(
                |entry: ClearedView| cleared_entry_text(entry),
            ),
            i <= cleared@.len(),
            out@ == before + listed(texts.take(i as int)),
        decreases cleared@.len() - i,
    {
        proof {
            lemma_listed_more(texts, i as int);
        }
        if i > 0 {
            put(out, ",");
        }
        put_cleared(out, &cleared[i]);
        assert(texts[i as int] == cleared_entry_text(cleared@[i as int]@));
        assert(out@ =~= before + listed(texts.take(i + 1)));
        i = i + 1;
    }
    assert(texts.take(i as int) =~= texts);
}

fn put_flags(out: &mut Vec<u8>, flags: &Vec<bool>)
    ensures
        final(out)@ == old(out)@ + listed(flags@.map_values(|flag: bool| flag_text(flag))),
{
    let ghost texts = flags@.map_values(|flag: bool| flag_text(flag));
    let ghost before = out@;
    let mut i: usize = 0;
    assert(out@ =~= before + listed(texts.take(0)));
    while i < flags.len()
        invariant
            texts == flags@.map_values(|flag: bool| flag_text(flag)),
            i <= flags@.len(),
            out@ == before + listed(texts.take(i as int)),
        decreases flags@.len() - i,
    {
        proof {
            lemma_listed_more(texts, i as int);
        }
        if i > 0 {
            put(out, ",");
        }
        put_flag(out, flags[i]);
        assert(out@ =~= before + listed(texts.take(i + 1)));
        i = i + 1;
    }
    assert(texts.take(i as int) =~= texts);
}

/// Writes the text of a control message with its fields in the order in which they are declared.
fn declared_text(message: &ControlMessage) -> (text: Vec<u8>)
    ensures
        text@ == control_text(message@),
{
    let mut out: Vec<u8> = Vec::new();
    match message {
        ControlMessage::StatusRequest => put(&mut out, "{\"type\":\"status_request\"}"),
        ControlMessage::StatusResponse { status, pins } => {
            put(&mut out, "{\"type\":\"status_response\",\"status\":{\"instances\":[");
            put_statuses(&mut out, &status.instances);
            put(&mut out, "]}");
            if pins.len() > 0 {
                put(&mut out, ",\"pins\":[");
                put_flags(&mut out, pins);
                put(&mut out, "]");
            }
            put(&mut out, "}");
        },
        ControlMessage::ClearRequest { force } => {
            put(&mut out, "{\"type\":\"clear_request\",\"force\":");
            put_flag(&mut out, *force);
            put(&mut out, "}");
        },
        ControlMessage::ClearResponse { cleared } => {
            put(&mut out, "{\"type\":\"clear_response\",\"cleared\":[");
            put_cleared_list(&mut out, cleared);
            put(&mut out, "]}");
        },
        ControlMessage::PinRequest { pid, pinned } => {
            put(&mut out, "{\"type\":\"pin_request\",\"pid\":");
            put_natural(&mut out, *pid as u64);
            put(&mut out, ",\"pinned\":");
            put_flag(&mut out, *pinned);
            put(&mut out, "}");
        },
        ControlMessage::PinResponse { found } => {
            put(&mut out, "{\"type\":\"pin_response\",\"found\":");
            put_flag(&mut out, *found);
            put(&mut out, "}");
        },
        ControlMessage::Error { message } => {
            put(&mut out, "{\"type\":\"error\",\"message\":");
            put_quoted(&mut out, message);
            put(&mut out, "}");
        },
    }
    assert(out@ =~= control_text(message@));
    out
}

fn same_status(a: &InstanceStatus, b: &InstanceStatus) -> (same: bool)
    ensures
        same == (a@ == b@),
{
    same_text(a.workspace.as_str(), b.workspace.as_str()) && a.pid == b.pid && a.client_count
        == b.client_count && a.idle_secs == b.idle_secs && a.healthy == b.healthy
}

fn same_statuses(a: &Vec<InstanceStatus>, b: &Vec<InstanceStatus>) -> (same: bool)
    ensures
        same == (statuses_view(a@) == statuses_view(b@)),
{
    let ghost (left, right) = (statuses_view(a@), statuses_view(b@));
    if a.len() != b.len() {
        assert(left.len() != right.len());
        return false;
    }
    let mut i: usize = 0;
    while i < a.len()
        invariant
            a@.len() == b@.len(),
            left == statuses_view(a@),
            right == statuses_view(b@),
            i <= a@.len(),
            forall|j: int| 0 <= j < i ==> left[j] == right[j],
        decreases a@.len() - i,
    {
        if !same_status(&a[i], &b[i]) {
            assert(left[i as int] != right[i as int]);
            return false;
        }
        i = i + 1;
    }
    assert(left =~= right);
    true
}

fn same_cleared(a: &Vec<ClearedInstance>, b: &Vec<ClearedInstance>) -> (same: bool)
    ensures
        same == (cleared_view(a@) == cleared_view(b@)),
{
    let ghost (left, right) = (cleared_view(a@), cleared_view(b@));
    if a.len() != b.len() {
        assert(left.len() != right.len());
        return false;
    }
    let mut i: usize = 0;
    while i < a.len()
        invariant
            a@.len() == b@.len(),
            left == cleared_view(a@),
            right == cleared_view(b@),
            i <= a@.len(),
            forall|j: int| 0 <= j < i ==> left[j] == right[j],
        decreases a@.len() - i,
    {
        if !same_text(a[i].workspace.as_str(), b[i].workspace.as_str()) || a[i].pid != b[i].pid {
            assert(left[i as int] != right[i as int]);
            return false;
        }
        i = i + 1;
    }
    assert(left =~= right);
    true
}

fn same_flags(a: &Vec<bool>, b: &Vec<bool>) -> (same: bool)
    ensures
        same == (a@ == b@),
{
    if a.len() != b.len() {
        return false;
    }
    let mut i: usize = 0;
    while i < a.len()
        invariant
            a@.len() == b@.len(),
            i <= a@.len(),
            forall|j: int| 0 <= j < i ==> a@[j] == b@[j],
        decreases a@.len() - i,
    {
        if a[i] != b[i] {
            return false;
        }
        i = i + 1;
    }
    assert(a@ =~= b@);
    true
}

fn same_message(a: &ControlMessage, b: &ControlMessage) -> (same: bool)
    ensures
        same == (a@ == b@),
{
    match (a, b) {
        (ControlMessage::StatusRequest, ControlMessage::StatusRequest) => true,
        (
            ControlMessage::StatusResponse { status, pins },
            ControlMessage::StatusResponse { status: other, pins: other_pins },
        ) => same_statuses(&status.instances, &other.instances) && same_flags(pins, other_pins),
        (ControlMessage::ClearRequest { force }, ControlMessage::ClearRequest { force: other }) => *force
            == *other,
        (
            ControlMessage::ClearResponse { cleared },
            ControlMessage::ClearResponse { cleared: other },
        ) => same_cleared(cleared, other),
        (
            ControlMessage::PinRequest { pid, pinned },
            ControlMessage::PinRequest { pid: other_pid, pinned: other },
        ) => *pid == *other_pid && *pinned == *other,
        (ControlMessage::PinResponse { found }, ControlMessage::PinResponse { found: other }) => *found
            == *other,
        (ControlMessage::Error { message }, ControlMessage::Error { message: other }) => same_text(
            message.as_str(),
            other.as_str(),
        ),
        _ => false,
    }
}

/// Writes the text that a control message is sent as. It reads back as the message.
pub fn write_control(message: &ControlMessage) -> (text: Vec<u8>)
    ensures
        text@ == control_bytes(message@),
        control_read(text@) == Some(message@),
{
    let text = declared_text(message);
    if let Some(read) = read_control(text.as_slice()) {
        if same_message(&read, message) {
            return text;
        }
    }
    proof {
        lemma_control_json_is_exact(message@);
        law_control_json_reads_back(message@);
    }
    match render(&control_value(message)) {
        Ok(text) => text,
        Err(_) => text,
    }
}

/// An object is read as the message that its type names, whatever members it has besides the fields
/// of that message; a type that names none makes it no message, nor does one that is missing or is
/// no string.
pub proof fn law_fields_are_read_by_their_names(
    members: Map<Seq<char>, JsonView>,
    tag: Seq<char>,
    text: Seq<char>,
    flag: bool,
    pid: u32,
)
    requires
        members.contains_key("type"@),
        members["type"@] == JsonView::Text(tag),
    ensures
        ({
            let read = JsonView::Object(members).control();
            let has = |name: Seq<char>, value: JsonView|
                members.contains_key(name) && members[name] == value;
            &&& tag == "status_request"@ ==> read == Some(ControlView::StatusRequest)
            &&& tag == "clear_request"@ ==> (read == Some(ControlView::ClearRequest { force: flag })
                <==> has("force"@, JsonView::Bool(flag)))
            &&& tag == "pin_request"@ ==> (read == Some(
                ControlView::PinRequest { pid, pinned: flag },
            ) <==> has("pid"@, JsonView::Number(NumberView::Integer(pid as int))) && has(
                "pinned"@,
                JsonView::Bool(flag),
            ))
            &&& tag == "pin_response"@ ==> (read == Some(ControlView::PinResponse { found: flag })
                <==> has("found"@, JsonView::Bool(flag)))
            &&& tag == "error"@ ==> (read == Some(ControlView::Error { message: text }) <==> has(
                "message"@,
                JsonView::Text(text),
            ))
            &&& read is Some ==> tag == "status_request"@ || tag == "status_response"@ || tag
                == "clear_request"@ || tag == "clear_response"@ || tag == "pin_request"@ || tag
                == "pin_response"@ || tag == "error"@
        }),
{
    lemma_tags_differ();
}

/// What is neither an object with a string for its type nor an array that starts with one is no
/// control message.
pub proof fn law_message_has_a_type(value: JsonView, items: Seq<JsonView>)
    ensures
        !(value is Object) && !(value is Array) ==> value.control() is None,
        value matches JsonView::Object(members) && !(members.contains_key("type"@)
            && members["type"@] is Text) ==> value.control() is None,
        items.len() == 0 || !(items[0] is Text) ==> JsonView::Array(items).control() is None,
{
}

/// A status response is read with its instances in turn, each by the names of its fields, and with
/// its pins in turn, or without pins where it has none.
pub proof fn law_status_is_read_in_turn(
    members: Map<Seq<char>, JsonView>,
    status: Map<Seq<char>, JsonView>,
    items: Seq<JsonView>,
    flags: Seq<JsonView>,
    instances: Seq<StatusView>,
    pins: Seq<bool>,
)
    requires
        members.contains_key("type"@),
        members["type"@] == JsonView::Text("status_response"@),
        members.contains_key("status"@),
        members["status"@] == JsonView::Object(status),
        status.contains_key("instances"@),
        status["instances"@] == JsonView::Array(items),
        items.len() == instances.len(),
        forall|i: int| 0 <= i < items.len() ==> (#[trigger] items[i]).status() == Some(instances[i]),
        flags.len() == pins.len(),
        forall|i: int| 0 <= i < flags.len() ==> #[trigger] flags[i] == JsonView::Bool(pins[i]),
    ensures
        members.contains_key("pins"@) && members["pins"@] == JsonView::Array(flags)
            ==> JsonView::Object(members).control() == Some(
            ControlView::StatusResponse { instances, pins },
        ),
        !members.contains_key("pins"@) ==> JsonView::Object(members).control() == Some(
            ControlView::StatusResponse { instances, pins: Seq::empty() },
        ),
{
    lemma_tags_differ();
    assert(items.map_values(|item: JsonView| item.status()->0) =~= instances);
    assert(flags.map_values(|item: JsonView| item.flag()->0) =~= pins);
    assert(JsonView::Array(items).status_list() == Some(instances));
    assert(JsonView::Array(flags).flag_list() == Some(pins));
}

/// A clear response is read with what ended in turn, each by the names of its fields; where one of
/// them cannot be read, the whole cannot.
pub proof fn law_cleared_are_read_in_turn(
    members: Map<Seq<char>, JsonView>,
    items: Seq<JsonView>,
    cleared: Seq<ClearedView>,
)
    requires
        members.contains_key("type"@),
        members["type"@] == JsonView::Text("clear_response"@),
        members.contains_key("cleared"@),
        members["cleared"@] == JsonView::Array(items),
    ensures
        JsonView::Object(members).control() == Some(ControlView::ClearResponse { cleared }) <==>
            items.len() == cleared.len() && forall|i: int|
            0 <= i < items.len() ==> (#[trigger] items[i]).cleared() == Some(cleared[i]),
{
    lemma_tags_differ();
    let read = items.map_values(|item: JsonView| item.cleared()->0);
    if items.len() == cleared.len() && forall|i: int|
        0 <= i < items.len() ==> (#[trigger] items[i]).cleared() == Some(cleared[i]) {
        assert(read =~= cleared);
        assert(JsonView::Array(items).cleared_list() == Some(cleared));
    }
    if JsonView::Object(members).control() == Some(ControlView::ClearResponse { cleared }) {
        assert(read == cleared);
        assert forall|i: int| 0 <= i < items.len() implies (#[trigger] items[i]).cleared() == Some(
            cleared[i],
        ) by {
            assert(read[i] == cleared[i]);
        }
    }
}

/// An instance is read by the names of its fields from an object, whatever else that holds, and by
/// their places from an array of just as many items.
pub proof fn law_instance_is_read_by_names_or_places(
    members: Map<Seq<char>, JsonView>,
    status: StatusView,
    entry: ClearedView,
)
    ensures
        ({
            let has = |name: Seq<char>, value: JsonView|
                members.contains_key(name) && members[name] == value;
            let number = |n: int| JsonView::Number(NumberView::Integer(n));
            &&& JsonView::Object(members).status() == Some(status) <==> has(
                "workspace"@,
                JsonView::Text(status.workspace),
            ) && has("pid"@, number(status.pid as int)) && has(
                "client_count"@,
                number(status.client_count as int),
            ) && has("idle_secs"@, number(status.idle_secs as int)) && has(
                "healthy"@,
                JsonView::Bool(status.healthy),
            )
            &&& JsonView::Array(
                seq![
                    JsonView::Text(status.workspace),
                    number(status.pid as int),
                    number(status.client_count as int),
                    number(status.idle_secs as int),
                    JsonView::Bool(status.healthy),
                ],
            ).status() == Some(status)
            &&& JsonView::Object(members).cleared() == Some(entry) <==> has(
                "workspace"@,
                JsonView::Text(entry.workspace),
            ) && has("pid"@, number(entry.pid as int))
            &&& JsonView::Array(
                seq![JsonView::Text(entry.workspace), number(entry.pid as int)],
            ).cleared() == Some(entry)
        }),
{
}

/// The JSON value of a message has its type and its fields for members, and no others.
pub proof fn law_message_is_written_with_its_fields(message: ControlView, key: Seq<char>)
    ensures
        control_json(message) matches JsonView::Object(members) && members.contains_key("type"@)
            && (match message {
            ControlView::StatusRequest => members["type"@] == JsonView::Text("status_request"@) && (
            members.contains_key(key) <==> key == "type"@),
            ControlView::StatusResponse { instances, pins } => members["type"@] == JsonView::Text(
                "status_response"@,
            ) && (members.contains_key(key) <==> key == "type"@ || key == "status"@ || (key
                == "pins"@ && pins.len() > 0)),
            ControlView::ClearRequest { force } => members["type"@] == JsonView::Text(
                "clear_request"@,
            ) && members["force"@] == JsonView::Bool(force) && (members.contains_key(key) <==> key
                == "type"@ || key == "force"@),
            ControlView::ClearResponse { cleared } => members["type"@] == JsonView::Text(
                "clear_response"@,
            ) && (members.contains_key(key) <==> key == "type"@ || key == "cleared"@),
            ControlView::PinRequest { pid, pinned } => members["type"@] == JsonView::Text(
                "pin_request"@,
            ) && members["pid"@] == JsonView::Number(NumberView::Integer(pid as int))
                && members["pinned"@] == JsonView::Bool(pinned) && (members.contains_key(key) <==>
                key == "type"@ || key == "pid"@ || key == "pinned"@),
            ControlView::PinResponse { found } => members["type"@] == JsonView::Text(
                "pin_response"@,
            ) && members["found"@] == JsonView::Bool(found) && (members.contains_key(key) <==> key
                == "type"@ || key == "found"@),
            ControlView::Error { message } => members["type"@] == JsonView::Text("error"@)
                && members["message"@] == JsonView::Text(message) && (members.contains_key(key)
                <==> key == "type"@ || key == "message"@),
        }),
{
    lemma_names_differ();
}

proof fn lemma_encoded_together(a: Seq<char>, b: Seq<char>)
    ensures
        encode_utf8(a + b) == encode_utf8(a) + encode_utf8(b),
    decreases a.len(),
{
    if a.len() == 0 {
        assert(a + b =~= b);
        assert(encode_utf8(a) + encode_utf8(b) =~= encode_utf8(b));
    } else {
        assert((a + b).drop_first() =~= a.drop_first() + b);
        lemma_encoded_together(a.drop_first(), b);
        assert(encode_utf8(a + b) =~= encode_utf8(a) + encode_utf8(b));
    }
}

/// Truth values and numbers are written as JSON has them: a word, and decimal digits behind a minus
/// sign where the number is negative.
pub proof fn law_words_and_numbers_are_written_as_json(number: nat)
    ensures
        flag_text(true) == encode_utf8("true"@),
        flag_text(false) == encode_utf8("false"@),
        number_text(number as int) == encode_utf8(decimal(number)),
        number > 0 ==> number_text(-number) == encode_utf8("-"@) + encode_utf8(decimal(number)),
{
    lemma_encoded_together("-"@, decimal(number));
}

/// A list is written item by item with a comma between any two.
pub proof fn law_list_is_written_with_commas(
    front: Seq<Seq<u8>>,
    behind: Seq<Seq<u8>>,
    alone: Seq<u8>,
)
    requires
        front.len() > 0,
        behind.len() > 0,
    ensures
        listed(Seq::empty()) == Seq::<u8>::empty(),
        listed(seq![alone]) == alone,
        listed(front + behind) == listed(front) + encode_utf8(","@) + listed(behind),
    decreases behind.len(),
{
    let whole = front + behind;
    assert(whole.last() == behind.last());
    if behind.len() == 1 {
        assert(whole.drop_last() =~= front);
    } else {
        assert(whole.drop_last() =~= front + behind.drop_last());
        law_list_is_written_with_commas(front, behind.drop_last(), alone);
        assert(listed(whole) =~= listed(front) + encode_utf8(","@) + listed(behind));
    }
}

/// The text of a request, of an answer to a pin and of an error is that of one JSON object with the
/// type in front and the fields in the order in which they are declared.
pub proof fn law_type_is_written_first(pid: u32, text: Seq<char>)
    ensures
        control_text(ControlView::StatusRequest) == encode_utf8("{\"type\":\"status_request\"}"@),
        control_text(ControlView::ClearRequest { force: true }) == encode_utf8(
            "{\"type\":\"clear_request\",\"force\":"@ + "true"@ + "}"@,
        ),
        control_text(ControlView::ClearRequest { force: false }) == encode_utf8(
            "{\"type\":\"clear_request\",\"force\":"@ + "false"@ + "}"@,
        ),
        control_text(ControlView::PinRequest { pid, pinned: true }) == encode_utf8(
            "{\"type\":\"pin_request\",\"pid\":"@ + decimal(pid as nat) + ",\"pinned\":"@ + "true"@
                + "}"@,
        ),
        control_text(ControlView::PinRequest { pid, pinned: false }) == encode_utf8(
            "{\"type\":\"pin_request\",\"pid\":"@ + decimal(pid as nat) + ",\"pinned\":"@
                + "false"@ + "}"@,
        ),
        control_text(ControlView::PinResponse { found: true }) == encode_utf8(
            "{\"type\":\"pin_response\",\"found\":"@ + "true"@ + "}"@,
        ),
        control_text(ControlView::PinResponse { found: false }) == encode_utf8(
            "{\"type\":\"pin_response\",\"found\":"@ + "false"@ + "}"@,
        ),
        control_text(ControlView::Error { message: text }) == encode_utf8(
            "{\"type\":\"error\",\"message\":"@,
        ) + json_text(JsonView::Text(text)) + encode_utf8("}"@),
{
    let (clear, pin, found) = (
        "{\"type\":\"clear_request\",\"force\":"@,
        "{\"type\":\"pin_request\",\"pid\":"@,
        "{\"type\":\"pin_response\",\"found\":"@,
    );
    lemma_encoded_together(clear, "true"@);
    lemma_encoded_together(clear + "true"@, "}"@);
    lemma_encoded_together(clear, "false"@);
    lemma_encoded_together(clear + "false"@, "}"@);
    lemma_encoded_together(found, "true"@);
    lemma_encoded_together(found + "true"@, "}"@);
    lemma_encoded_together(found, "false"@);
    lemma_encoded_together(found + "false"@, "}"@);
    let named = pin + decimal(pid as nat) + ",\"pinned\":"@;
    lemma_encoded_together(pin, decimal(pid as nat));
    lemma_encoded_together(pin + decimal(pid as nat), ",\"pinned\":"@);
    lemma_encoded_together(named, "true"@);
    lemma_encoded_together(named + "true"@, "}"@);
    lemma_encoded_together(named, "false"@);
    lemma_encoded_together(named + "false"@, "}"@);
}

/// Each instance of a status or of a clear response is written as an object of its own, with its
/// fields in the order in which they are declared, and in turn.
pub proof fn law_instances_are_written_in_turn(
    instances: Seq<StatusView>,
    cleared: Seq<ClearedView>,
    texts: Seq<Seq<u8>>,
    lines: Seq<Seq<u8>>,
)
    requires
        texts.len() == instances.len(),
        forall|i: int|
            0 <= i < texts.len() ==> {
                let status = instances[i];
                #[trigger] texts[i] == encode_utf8("{\"workspace\":"@) + json_text(
                    JsonView::Text(status.workspace),
                ) + encode_utf8(",\"pid\":"@) + encode_utf8(decimal(status.pid as nat))
                    + encode_utf8(",\"client_count\":"@) + encode_utf8(
                    decimal(status.client_count as nat),
                ) + encode_utf8(",\"idle_secs\":"@) + number_text(status.idle_secs as int)
                    + encode_utf8(",\"healthy\":"@) + encode_utf8(
                    if status.healthy {
                        "true"@
                    } else {
                        "false"@
                    },
                ) + encode_utf8("}"@)
            },
        lines.len() == cleared.len(),
        forall|i: int|
            0 <= i < lines.len() ==> #[trigger] lines[i] == encode_utf8("{\"workspace\":"@)
                + json_text(JsonView::Text(cleared[i].workspace)) + encode_utf8(",\"pid\":"@)
                + encode_utf8(decimal(cleared[i].pid as nat)) + encode_utf8("}"@),
    ensures
        control_text(ControlView::StatusResponse { instances, pins: Seq::empty() }) == encode_utf8(
            "{\"type\":\"status_response\",\"status\":{\"instances\":["@,
        ) + listed(texts) + encode_utf8("]}"@) + encode_utf8("}"@),
        control_text(ControlView::ClearResponse { cleared }) == encode_utf8(
            "{\"type\":\"clear_response\",\"cleared\":["@,
        ) + listed(lines) + encode_utf8("]}"@),
{
    assert(instances.map_values(|status: StatusView| status_entry_text(status)) =~= texts);
    assert(cleared.map_values(|entry: ClearedView| cleared_entry_text(entry)) =~= lines);
    let head = encode_utf8("{\"type\":\"status_response\",\"status\":{\"instances\":["@) + listed(
        texts,
    ) + encode_utf8("]}"@);
    assert(head + Seq::<u8>::empty() =~= head);
}

/// Pins are written behind the instances as a list of truth values in turn.
pub proof fn law_pins_are_written_behind(
    instances: Seq<StatusView>,
    pins: Seq<bool>,
    flags: Seq<Seq<u8>>,
)
    requires
        pins.len() > 0,
        flags.len() == pins.len(),
        forall|i: int|
            0 <= i < flags.len() ==> #[trigger] flags[i] == encode_utf8(
                if pins[i] {
                    "true"@
                } else {
                    "false"@
                },
            ),
    ensures
        control_text(ControlView::StatusResponse { instances, pins }) == control_text(
            ControlView::StatusResponse { instances, pins: Seq::empty() },
        ).drop_last() + (encode_utf8(",\"pins\":["@) + listed(flags) + encode_utf8("]"@))
            + encode_utf8("}"@),
{
    assert(pins.map_values(|pin: bool| flag_text(pin)) =~= flags);
    let closing = encode_utf8("}"@);
    reveal_strlit("}");
    is_ascii_chars_encode_utf8("}"@);
    assert(closing.len() == 1);
    let head = encode_utf8("{\"type\":\"status_response\",\"status\":{\"instances\":["@) + listed(
        instances.map_values(|status: StatusView| status_entry_text(status)),
    ) + encode_utf8("]}"@);
    assert(head + Seq::<u8>::empty() =~= head);
    assert((head + closing).drop_last() =~= head);
}

/// An array is read as the message that its first item names, with the fields of that message in
/// the places behind it, and no more items than that; pins may be left out.
pub proof fn law_fields_are_read_by_their_places(
    items: Seq<JsonView>,
    text: Seq<char>,
    flag: bool,
    pid: u32,
)
    requires
        items.len() > 0,
    ensures
        ({
            let read = JsonView::Array(items).control();
            let number = JsonView::Number(NumberView::Integer(pid as int));
            &&& items[0] == JsonView::Text("status_request"@) ==> (read == Some(
                ControlView::StatusRequest,
            ) <==> items.len() == 1)
            &&& items[0] == JsonView::Text("clear_request"@) ==> (read == Some(
                ControlView::ClearRequest { force: flag },
            ) <==> items.len() == 2 && items[1] == JsonView::Bool(flag))
            &&& items[0] == JsonView::Text("pin_request"@) ==> (read == Some(
                ControlView::PinRequest { pid, pinned: flag },
            ) <==> items.len() == 3 && items[1] == number && items[2] == JsonView::Bool(flag))
            &&& items[0] == JsonView::Text("pin_response"@) ==> (read == Some(
                ControlView::PinResponse { found: flag },
            ) <==> items.len() == 2 && items[1] == JsonView::Bool(flag))
            &&& items[0] == JsonView::Text("error"@) ==> (read == Some(
                ControlView::Error { message: text },
            ) <==> items.len() == 2 && items[1] == JsonView::Text(text))
            &&& items[0] == JsonView::Text("status_response"@) && read is Some ==> items.len() == 2
                || items.len() == 3
            &&& items[0] == JsonView::Text("clear_response"@) && read is Some ==> items.len() == 2
        }),
{
    lemma_tags_differ();
}

/// A control message is sent with its fields as they are declared wherever that is read as the
/// message, and in any case as text of a JSON value that is the message.
pub proof fn law_control_is_sent_as_declared(message: ControlView, text: Seq<u8>, value: JsonView)
    ensures
        control_read(control_text(message)) == Some(message) ==> control_bytes(message)
            == control_text(message),
        control_read(control_text(message)) != Some(message) ==> control_bytes(message)
            == json_text(control_json(message)),
        parsed_json(text) == Some(value) ==> control_read(text) == value.control(),
        parsed_json(text) is None ==> control_read(text) is None,
{
}

} // verus!
