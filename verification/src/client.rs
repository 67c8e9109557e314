//! The side of the editor and of the user: what is asked of the daemon and how its answers are
//! shown.

use vstd::prelude::*;
use vstd::seq_lib::*;
use vstd::string::*;

use crate::config::{Mode, DEFAULT_ADDR};
use crate::error::{Error, ErrorView};
use crate::json::{json_text, parsed_json, JsonView};
use crate::manager::{
    idle_secs_fit, opt_bytes, reports, status_of, tells_pins, Instances, ManagerView,
};
use crate::protocol::lsp::{framed, law_framed_decodes, lsp_decoded};
use crate::protocol::msg::{
    cleared_view, statuses_view, ClearedInstance, ClearedView, ControlMessage, ControlView,
    InstanceStatus, RadMessage, RadView, ServerStatus, StatusView,
};
use crate::server::{
    law_clear_request_ends_what_it_lists, law_pin_request_sets_the_pin, settles,
};
use crate::text::{
    decimal, decimal_text, is_before, lemma_text_before_order, same_text, text_before,
};

verus! {

/// What a client is started with.
pub struct Options {
    pub server_addr: String,
}

impl Default for Options {
    fn default() -> (options: Self)
        ensures
            options.server_addr@ == DEFAULT_ADDR@,
    {
        Options { server_addr: DEFAULT_ADDR.to_string() }
    }
}

/// A span of time: seconds below a minute, minutes and seconds below an hour, else hours and
/// minutes; no time is less than none.
pub open spec fn duration_text(secs: int) -> Seq<char> {
    let secs: nat = if secs < 0 {
        0
    } else {
        secs as nat
    };
    if secs < 60 {
        decimal(secs) + "s"@
    } else if secs < 3600 {
        decimal(secs / 60) + "m "@ + decimal(secs % 60) + "s"@
    } else {
        decimal(secs / 3600) + "h "@ + decimal(secs / 60 % 60) + "m"@
    }
}

pub fn format_duration_secs(secs: i64) -> (text: String)
    ensures
        text@ == duration_text(secs as int),
{
    let secs: u64 = if secs < 0 {
        0
    } else {
        secs as u64
    };
    if secs < 60 {
        return decimal_text(secs).concat("s");
    }
    let minutes = secs / 60;
    let seconds = secs % 60;
    if minutes < 60 {
        return decimal_text(minutes).concat("m ").concat(decimal_text(seconds).as_str()).concat("s");
    }
    let hours = minutes / 60;
    let minutes = minutes % 60;
    assert(hours == secs / 3600);
    decimal_text(hours).concat("h ").concat(decimal_text(minutes).as_str()).concat("m")
}

/// What is told of an instance, and whether it is pinned, where that is told.
pub struct ShownView {
    pub status: StatusView,
    pub pinned: Option<bool>,
}

pub open spec fn yes_or_no(answer: bool) -> Seq<char> {
    if answer {
        "yes"@
    } else {
        "no"@
    }
}

fn yes_no(answer: bool) -> (text: &'static str)
    ensures
        text@ == yes_or_no(answer),
{
    if answer {
        "yes"
    } else {
        "no"
    }
}

/// The line that shows whether an instance is pinned.
pub open spec fn pinned_line(pinned: Option<bool>) -> Seq<char> {
    match pinned {
        Some(pinned) => "  pinned:   "@ + yes_or_no(pinned) + "\n"@,
        None => ""@,
    }
}

/// What the user is shown of an instance.
pub open spec fn instance_text(shown: ShownView) -> Seq<char> {
    let status = shown.status;
    "workspace: "@ + status.workspace + "\n  pid:      "@ + decimal(status.pid as nat)
        + "\n  clients:  "@ + decimal(status.client_count as nat) + "\n  idle:     "@
        + duration_text(status.idle_secs as int) + "\n"@ + pinned_line(shown.pinned)
        + "  healthy:  "@ + yes_or_no(status.healthy) + "\n"@
}

/// Writes out an instance for the user, with its pin where it is told.
pub fn format_instance_status(instance: &InstanceStatus, pinned: Option<bool>) -> (text: String)
    ensures
        text@ == instance_text(ShownView { status: instance@, pinned }),
{
    let pin = match pinned {
        Some(pinned) => "  pinned:   ".to_string().concat(yes_no(pinned)).concat("\n"),
        None => "".to_string(),
    };
    "workspace: ".to_string().concat(instance.workspace.as_str()).concat("\n  pid:      ").concat(
        decimal_text(instance.pid as u64).as_str(),
    ).concat("\n  clients:  ").concat(decimal_text(instance.client_count as u64).as_str()).concat(
        "\n  idle:     ",
    ).concat(format_duration_secs(instance.idle_secs).as_str()).concat("\n").concat(
        pin.as_str(),
    ).concat("  healthy:  ").concat(yes_no(instance.healthy)).concat("\n")
}

/// Whether an instance is shown before another: by workspace, then by process.
pub open spec fn status_before(a: ShownView, b: ShownView) -> bool {
    key_before(a.status, b.status)
}

pub open spec fn key_before(a: StatusView, b: StatusView) -> bool {
    text_before(a.workspace, b.workspace) || (a.workspace == b.workspace && a.pid < b.pid)
}

fn is_status_before(a: &InstanceStatus, b: &InstanceStatus) -> (before: bool)
    ensures
        before == key_before(a@, b@),
{
    is_before(a.workspace.as_str(), b.workspace.as_str()) || (same_text(
        a.workspace.as_str(),
        b.workspace.as_str(),
    ) && a.pid < b.pid)
}

/// Where an instance has its place in a list that is in order: behind all that it does not come
/// before.
pub open spec fn place_of(list: Seq<ShownView>, status: ShownView) -> int
    decreases list.len(),
{
    if list.len() == 0 || !status_before(status, list.last()) {
        list.len() as int
    } else {
        place_of(list.drop_last(), status)
    }
}

/// The instances in the order in which they are shown.
pub open spec fn arranged(list: Seq<ShownView>) -> Seq<ShownView>
    decreases list.len(),
{
    if list.len() == 0 {
        list
    } else {
        let front = arranged(list.drop_last());
        front.insert(place_of(front, list.last()), list.last())
    }
}

/// The instances one after the other, an empty line between any two.
pub open spec fn blocks(list: Seq<ShownView>) -> Seq<char>
    decreases list.len(),
{
    if list.len() == 0 {
        Seq::empty()
    } else if list.len() == 1 {
        instance_text(list[0])
    } else {
        blocks(list.drop_last()) + "\n"@ + instance_text(list.last())
    }
}

/// What the user is shown of the daemon.
pub open spec fn status_text(list: Seq<ShownView>) -> Seq<char> {
    if list.len() == 0 {
        "no lsp instances\n"@
    } else {
        blocks(arranged(list))
    }
}

/// The instances as they are shown: with a pin where one is told at their place.
pub open spec fn shown(statuses: Seq<StatusView>, pinned: Seq<bool>) -> Seq<ShownView> {
    Seq::new(
        statuses.len(),
        |i: int|
            ShownView {
                status: statuses[i],
                pinned: if i < pinned.len() {
                    Some(pinned[i])
                } else {
                    None
                },
            },
    )
}

pub open spec fn entries_view(list: Seq<(&InstanceStatus, Option<bool>)>) -> Seq<ShownView> {
    list.map_values(
        |entry: (&InstanceStatus, Option<bool>)| ShownView { status: entry.0@, pinned: entry.1 },
    )
}

proof fn lemma_place_of(list: Seq<ShownView>, status: ShownView)
    ensures
        0 <= place_of(list, status) <= list.len(),
        forall|i: int|
            place_of(list, status) <= i < list.len() ==> status_before(status, #[trigger] list[i]),
        place_of(list, status) > 0 ==> !status_before(status, list[place_of(list, status) - 1]),
    decreases list.len(),
{
    if list.len() > 0 && status_before(status, list.last()) {
        let front = list.drop_last();
        lemma_place_of(front, status);
        assert forall|i: int| place_of(list, status) <= i < list.len() implies status_before(
            status,
            #[trigger] list[i],
        ) by {
            if i < front.len() {
                assert(front[i] == list[i]);
            }
        }
    }
}

proof fn lemma_arranged_len(list: Seq<ShownView>)
    ensures
        arranged(list).len() == list.len(),
    decreases list.len(),
{
    if list.len() > 0 {
        lemma_arranged_len(list.drop_last());
        lemma_place_of(arranged(list.drop_last()), list.last());
    }
}

/// Puts the instances in the order in which they are shown.
fn arrange<'a>(instances: &'a Vec<InstanceStatus>, pinned: &Vec<bool>) -> (list: Vec<
    (&'a InstanceStatus, Option<bool>),
>)
    ensures
        entries_view(list@) == arranged(shown(statuses_view(instances@), pinned@)),
{
    let mut list: Vec<(&'a InstanceStatus, Option<bool>)> = Vec::new();
    let ghost views = shown(statuses_view(instances@), pinned@);
    let mut i: usize = 0;
    assert(entries_view(list@) =~= arranged(views.take(0)));
    while i < instances.len()
        invariant
            views == shown(statuses_view(instances@), pinned@),
            i <= instances@.len(),
            entries_view(list@) == arranged(views.take(i as int)),
        decreases instances@.len() - i,
    {
        let status = &instances[i];
        let pin = if i < pinned.len() {
            Some(pinned[i])
        } else {
            None
        };
        let ghost entry = ShownView { status: status@, pinned: pin };
        let ghost front = entries_view(list@);
        let mut at: usize = list.len();
        assert(front.take(at as int) =~= front);
        while at > 0 && is_status_before(status, list[at - 1].0)
            invariant
                at <= list@.len(),
                front == entries_view(list@),
                entry.status == status@,
                place_of(front, entry) == place_of(front.take(at as int), entry),
            decreases at,
        {
            assert(front.take(at as int).last() == front[at - 1]);
            assert(front.take(at as int).drop_last() =~= front.take(at - 1));
            at = at - 1;
        }
        assert(place_of(front, entry) == at) by {
            if at > 0 {
                assert(front.take(at as int).last() == front[at - 1]);
            }
        }
        list.insert(at, (status, pin));
        proof {
            assert(entries_view(list@) =~= front.insert(at as int, entry));
            let taken = views.take(i + 1);
            assert(taken.drop_last() =~= views.take(i as int));
            assert(taken.last() == entry);
        }
        i = i + 1;
    }
    assert(views.take(i as int) =~= views);
    list
}

/// Writes out the state of the daemon for the user, where nothing is told of pins.
pub fn format_status(status: ServerStatus) -> (text: String)
    ensures
        text@ == status_text(shown(statuses_view(status.instances@), Seq::empty())),
{
    let pinned: Vec<bool> = Vec::new();
    format_pinned_status(status, &pinned)
}

/// Writes out the state of the daemon for the user; `pinned` tells of each instance in turn
/// whether it is pinned.
pub fn format_pinned_status(status: ServerStatus, pinned: &Vec<bool>) -> (text: String)
    ensures
        text@ == status_text(shown(statuses_view(status.instances@), pinned@)),
{
    if status.instances.len() == 0 {
        return "no lsp instances\n".to_string();
    }
    let list = arrange(&status.instances, pinned);
    let ghost views = entries_view(list@);
    proof {
        lemma_arranged_len(shown(statuses_view(status.instances@), pinned@));
    }
    let mut out = String::new();
    let mut i: usize = 0;
    assert(out@ =~= blocks(views.take(0)));
    while i < list.len()
        invariant
            views == entries_view(list@),
            i <= list@.len(),
            out@ == blocks(views.take(i as int)),
        decreases list@.len() - i,
    {
        let ghost front = views.take(i as int);
        let ghost taken = views.take(i + 1);
        assert(taken.drop_last() =~= front);
        assert(taken.last() == views[i as int]);
        if i > 0 {
            out = out.concat("\n");
        }
        let (instance, pin) = list[i];
        out = out.concat(format_instance_status(instance, pin).as_str());
        assert(i == 0 ==> out@ =~= instance_text(taken[0]));
        i = i + 1;
    }
    assert(views.take(i as int) =~= views);
    out
}

/// What came back from the daemon.
pub enum Reply {
    /// Nothing: the connection was closed.
    Closed,
    /// A message that is meant for an editor.
    Lsp,
    Control { message: ControlMessage },
}

/// The control message that a command sends to the daemon.
pub open spec fn request_of(mode: Mode) -> Option<ControlMessage> {
    match mode {
        Mode::Server => None,
        Mode::Client => None,
        Mode::Status => Some(ControlMessage::StatusRequest),
        Mode::Clean { force } => Some(ControlMessage::ClearRequest { force }),
        Mode::Pin { pid, remove } => Some(ControlMessage::PinRequest { pid, pinned: !remove }),
    }
}

/// The control message that a command sends to the daemon; running the daemon or tying an editor
/// to it sends none.
pub fn control_request(mode: &Mode) -> (request: Option<ControlMessage>)
    ensures
        request == request_of(*mode),
{
    match mode {
        Mode::Server => None,
        Mode::Client => None,
        Mode::Status => Some(ControlMessage::StatusRequest),
        Mode::Clean { force } => Some(ControlMessage::ClearRequest { force: *force }),
        Mode::Pin { pid, remove } => Some(
            ControlMessage::PinRequest { pid: *pid, pinned: !*remove },
        ),
    }
}

impl Reply {
    /// What is wrong with a reply that is not the awaited `response`.
    pub open spec fn complaint(self, response: Seq<char>) -> ErrorView {
        match self {
            Reply::Closed => ErrorView::PlainText(
                "rad server closed connection before "@ + response,
            ),
            Reply::Lsp => ErrorView::PlainText("unexpected lsp message from rad server"@),
            Reply::Control { message } => match message {
                ControlMessage::Error { message } => ErrorView::PlainText(message@),
                ControlMessage::StatusRequest => ErrorView::PlainText(
                    "unexpected status request from rad server"@,
                ),
                _ => ErrorView::PlainText("unexpected control message from rad server"@),
            },
        }
    }

    fn into_complaint(self, response: &str) -> (error: Error)
        ensures
            error@ == self.complaint(response@),
    {
        let msg = match self {
            Reply::Closed => "rad server closed connection before ".to_string().concat(response),
            Reply::Lsp => "unexpected lsp message from rad server".to_string(),
            Reply::Control { message } => match message {
                ControlMessage::Error { message } => message,
                ControlMessage::StatusRequest => "unexpected status request from rad server".to_string(),
                _ => "unexpected control message from rad server".to_string(),
            },
        };
        Error::PlainText { msg }
    }
}

pub open spec fn outcome_text(text: Result<String, Error>) -> Result<Seq<char>, ErrorView> {
    match text {
        Ok(text) => Ok(text@),
        Err(error) => Err(error@),
    }
}

/// What is shown on a reply to the request for the status.
pub open spec fn status_shown(reply: Reply) -> Result<Seq<char>, ErrorView> {
    match reply {
        Reply::Control { message: ControlMessage::StatusResponse { status, pins } } => Ok(
            status_text(shown(statuses_view(status.instances@), pins@)),
        ),
        _ => Err(reply.complaint("status response"@)),
    }
}

/// What the user is shown who asked for the status.
pub fn status_reply(reply: Reply) -> (text: Result<String, Error>)
    ensures
        outcome_text(text) == status_shown(reply),
{
    match reply {
        Reply::Control { message: ControlMessage::StatusResponse { status, pins } } => Ok(
            format_pinned_status(status, &pins),
        ),
        other => Err(other.into_complaint("status response")),
    }
}

/// The instances that ended, one in each line.
pub open spec fn cleared_text(list: Seq<ClearedView>) -> Seq<char>
    decreases list.len(),
{
    if list.len() == 0 {
        Seq::empty()
    } else {
        cleared_text(list.drop_last()) + (list.last().workspace + " (pid: "@ + decimal(
            list.last().pid as nat,
        ) + ")\n"@)
    }
}

/// Writes out for the user which instances ended.
pub fn format_cleared(cleared: &Vec<ClearedInstance>) -> (text: String)
    ensures
        text@ == cleared_text(cleared_view(cleared@)),
{
    let mut out = String::new();
    let ghost views = cleared_view(cleared@);
    let mut i: usize = 0;
    assert(out@ =~= cleared_text(views.take(0)));
    while i < cleared.len()
        invariant
            views == cleared_view(cleared@),
            i <= cleared@.len(),
            out@ == cleared_text(views.take(i as int)),
        decreases cleared@.len() - i,
    {
        let entry = &cleared[i];
        assert(views.take(i + 1).drop_last() =~= views.take(i as int));
        assert(views.take(i + 1).last() == entry@);
        let line = entry.workspace.clone().concat(" (pid: ").concat(
            decimal_text(entry.pid as u64).as_str(),
        ).concat(")\n");
        out = out.concat(line.as_str());
        i = i + 1;
    }
    assert(views.take(i as int) =~= views);
    out
}

/// What is shown on a reply to the request to end instances.
pub open spec fn clear_shown(reply: Reply) -> Result<Seq<char>, ErrorView> {
    match reply {
        Reply::Control { message: ControlMessage::ClearResponse { cleared } } => Ok(
            cleared_text(cleared_view(cleared@)),
        ),
        _ => Err(reply.complaint("clear response"@)),
    }
}

/// What the user is shown who asked to end instances.
pub fn clear_reply(reply: Reply) -> (text: Result<String, Error>)
    ensures
        outcome_text(text) == clear_shown(reply),
{
    match reply {
        Reply::Control { message: ControlMessage::ClearResponse { cleared } } => Ok(
            format_cleared(&cleared),
        ),
        other => Err(other.into_complaint("clear response")),
    }
}

/// What is shown on a reply to the request to pin the instance of a process.
pub open spec fn pin_shown(pid: u32, reply: Reply) -> Result<Seq<char>, ErrorView> {
    match reply {
        Reply::Control { message: ControlMessage::PinResponse { found } } => if found {
            Ok(""@)
        } else {
            Err(ErrorView::PlainText("no lsp instance with pid "@ + decimal(pid as nat)))
        },
        _ => Err(reply.complaint("pin response"@)),
    }
}

/// What the user is shown who asked to pin the instance of a process: nothing, unless there is no
/// such instance.
pub fn pin_reply(pid: u32, reply: Reply) -> (text: Result<String, Error>)
    ensures
        outcome_text(text) == pin_shown(pid, reply),
{
    match reply {
        Reply::Control { message: ControlMessage::PinResponse { found } } => if found {
            Ok("".to_string())
        } else {
            Err(
                Error::PlainText {
                    msg: "no lsp instance with pid ".to_string().concat(
                        decimal_text(pid as u64).as_str(),
                    ),
                },
            )
        },
        other => Err(other.into_complaint("pin response")),
    }
}

/// The bytes that an editor is given of a message.
pub open spec fn given_to_editor(message: RadView) -> Option<Seq<u8>> {
    match message {
        RadView::Lsp(value) => Some(framed(json_text(value))),
        RadView::Control(_) => None,
    }
}

/// The bytes that a message from the daemon gives the editor: none for a control message.
pub fn editor_bytes(message: &RadMessage) -> (bytes: Result<Option<Vec<u8>>, Error>)
    ensures
        bytes is Ok,
        opt_bytes(bytes->Ok_0) == given_to_editor(message@),
{
    match message {
        RadMessage::Lsp(frame) => match frame.to_bytes() {
            Ok(bytes) => Ok(Some(bytes)),
            Err(error) => Err(error),
        },
        RadMessage::Control(_) => Ok(None),
    }
}

proof fn lemma_status_order(a: ShownView, b: ShownView, c: ShownView)
    ensures
        !status_before(a, a),
        status_before(a, b) && status_before(b, c) ==> status_before(a, c),
        status_before(a, b) || status_before(b, a) || (a.status.workspace
            == b.status.workspace && a.status.pid == b.status.pid),
        status_before(a, b) ==> !status_before(b, a),
{
    lemma_text_before_order(a.status.workspace, b.status.workspace, c.status.workspace);
    lemma_text_before_order(b.status.workspace, a.status.workspace, b.status.workspace);
}

/// Whether nothing in a list comes before what stands in front of it.
pub open spec fn in_order(list: Seq<ShownView>) -> bool {
    forall|i: int, j: int|
        0 <= i < j < list.len() ==> !status_before(#[trigger] list[j], #[trigger] list[i])
}

/// The status is shown in the order of the workspaces, and of the processes where workspaces are
/// the same.
pub proof fn law_status_is_in_order(list: Seq<ShownView>)
    ensures
        in_order(arranged(list)),
    decreases list.len(),
{
    if list.len() > 0 {
        let front = arranged(list.drop_last());
        let status = list.last();
        law_status_is_in_order(list.drop_last());
        lemma_place_of(front, status);
        let at = place_of(front, status);
        let whole = front.insert(at, status);
        assert forall|i: int, j: int| 0 <= i < j < whole.len() implies !status_before(
            #[trigger] whole[j],
            #[trigger] whole[i],
        ) by {
            if i < at && at < j {
                assert(whole[i] == front[i]);
                assert(whole[j] == front[j - 1]);
            } else if i == at {
                assert(whole[j] == front[j - 1]);
                lemma_status_order(status, front[j - 1], status);
            } else if j == at {
                assert(whole[i] == front[i]);
                assert(i < at - 1 ==> !status_before(front[at - 1], front[i]));
                lemma_status_order(status, front[i], front[at - 1]);
                lemma_status_order(front[i], front[at - 1], status);
                lemma_status_order(front[at - 1], status, front[i]);
            } else if j < at {
                assert(whole[i] == front[i] && whole[j] == front[j]);
            } else {
                assert(whole[i] == front[i - 1] && whole[j] == front[j - 1]);
            }
        }
    }
}

/// The status shows each instance as often as the daemon tells of it.
pub proof fn law_status_shows_each_instance(list: Seq<ShownView>)
    ensures
        arranged(list).to_multiset() == list.to_multiset(),
    decreases list.len(),
{
    broadcast use group_to_multiset_ensures;

    if list.len() > 0 {
        let front = arranged(list.drop_last());
        law_status_shows_each_instance(list.drop_last());
        lemma_place_of(front, list.last());
        assert(list =~= list.drop_last().push(list.last()));
    }
}

proof fn lemma_filter_none(list: Seq<ShownView>, keep: spec_fn(ShownView) -> bool)
    requires
        forall|i: int| 0 <= i < list.len() ==> !keep(#[trigger] list[i]),
    ensures
        list.filter(keep) == Seq::<ShownView>::empty(),
    decreases list.len(),
{
    reveal(Seq::filter);
    if list.len() > 0 {
        lemma_filter_none(list.drop_last(), keep);
    }
}

/// Where the daemon tells of a workspace and a process more than once, the order in which it
/// does stays.
pub proof fn law_status_keeps_order_of_equals(list: Seq<ShownView>, workspace: Seq<char>, pid: u32)
    ensures
        ({
            let same = |entry: ShownView|
                entry.status.workspace == workspace && entry.status.pid == pid;
            arranged(list).filter(same) == list.filter(same)
        }),
    decreases list.len(),
{
    let same = |entry: ShownView|
                entry.status.workspace == workspace && entry.status.pid == pid;
    reveal(Seq::filter);
    if list.len() > 0 {
        let front = arranged(list.drop_last());
        let status = list.last();
        law_status_keeps_order_of_equals(list.drop_last(), workspace, pid);
        lemma_place_of(front, status);
        let at = place_of(front, status);
        let (head, tail) = (front.take(at), front.skip(at));
        assert(front =~= head + tail);
        assert(front.insert(at, status) =~= head.push(status) + tail);
        Seq::filter_distributes_over_add(head, tail, same);
        Seq::filter_distributes_over_add(head.push(status), tail, same);
        assert(head.push(status).drop_last() =~= head);
        if same(status) {
            assert forall|i: int| 0 <= i < tail.len() implies !same(#[trigger] tail[i]) by {
                lemma_status_order(status, tail[i], status);
                lemma_text_before_order(workspace, workspace, workspace);
            }
            lemma_filter_none(tail, same);
            assert(arranged(list).filter(same) =~= list.filter(same));
        }
    }
}

/// Whether no two entries tell of the same process of the same workspace.
pub open spec fn keys_differ(list: Seq<ShownView>) -> bool {
    forall|i: int, j: int|
        0 <= i < j < list.len() ==> (#[trigger] list[i]).status.workspace != (
        #[trigger] list[j]).status.workspace || list[i].status.pid != list[j].status.pid
}

proof fn lemma_keys_differ(a: Seq<ShownView>, b: Seq<ShownView>)
    requires
        keys_differ(a),
        a.to_multiset() == b.to_multiset(),
    ensures
        keys_differ(b),
{
    broadcast use group_to_multiset_ensures;

    assert(a.no_duplicates());
    a.lemma_multiset_has_no_duplicates();
    b.lemma_multiset_has_no_duplicates_conv();
    assert forall|i: int, j: int| 0 <= i < j < b.len() implies (#[trigger] b[i]).status.workspace
        != (#[trigger] b[j]).status.workspace || b[i].status.pid != b[j].status.pid by {
        assert(b.contains(b[i]) && b.contains(b[j]));
        assert(a.to_multiset().count(b[i]) > 0 && a.to_multiset().count(b[j]) > 0);
        assert(a.contains(b[i]) && a.contains(b[j]));
        let p = choose|p: int| 0 <= p < a.len() && a[p] == b[i];
        let q = choose|q: int| 0 <= q < a.len() && a[q] == b[j];
        assert(a[p] == b[i] && a[q] == b[j]);
    }
}

proof fn lemma_order_is_unique(a: Seq<ShownView>, b: Seq<ShownView>)
    requires
        in_order(a),
        in_order(b),
        keys_differ(a),
        a.to_multiset() == b.to_multiset(),
    ensures
        a == b,
    decreases a.len(),
{
    broadcast use group_to_multiset_ensures;

    a.to_multiset_ensures();
    b.to_multiset_ensures();
    assert(a.len() == b.len());
    if a.len() > 0 {
        assert(b.to_multiset().count(a.last()) > 0) by {
            assert(a.contains(a.last()));
        }
        assert(b.contains(a.last()));
        assert(a.to_multiset().count(b.last()) > 0) by {
            assert(b.contains(b.last()));
        }
        assert(a.contains(b.last()));
        let i = choose|i: int| 0 <= i < b.len() && b[i] == a.last();
        let j = choose|j: int| 0 <= j < a.len() && a[j] == b.last();
        assert(a.last() == b.last()) by {
            if j < a.len() - 1 {
                assert(!status_before(a[a.len() - 1], a[j]));
                if i < b.len() - 1 {
                    assert(!status_before(b[b.len() - 1], b[i]));
                    lemma_status_order(a.last(), b.last(), a.last());
                }
            }
        }
        assert(a =~= a.drop_last().push(a.last()));
        assert(b =~= b.drop_last().push(b.last()));
        assert(a.drop_last().to_multiset() =~= a.to_multiset().remove(a.last()));
        assert(b.drop_last().to_multiset() =~= b.to_multiset().remove(b.last()));
        lemma_order_is_unique(a.drop_last(), b.drop_last());
    } else {
        assert(a =~= b);
    }
}

/// In which order the daemon tells of the instances makes no difference to what is shown.
pub proof fn law_status_ignores_order(a: Seq<ShownView>, b: Seq<ShownView>)
    requires
        keys_differ(a),
        a.to_multiset() == b.to_multiset(),
    ensures
        status_text(a) == status_text(b),
{
    broadcast use group_to_multiset_ensures;

    law_status_is_in_order(a);
    law_status_is_in_order(b);
    law_status_shows_each_instance(a);
    law_status_shows_each_instance(b);
    a.to_multiset_ensures();
    b.to_multiset_ensures();
    lemma_keys_differ(a, arranged(a));
    lemma_order_is_unique(arranged(a), arranged(b));
}

/// What is shown of an instance of which all is told.
pub open spec fn entry_of(
    workspace: Seq<char>,
    instances: Instances,
    now: i64,
    healthy_pids: Seq<u32>,
) -> ShownView {
    let instance = instances[workspace];
    ShownView {
        status: status_of(workspace, instance, now, healthy_pids.contains(instance.pid)),
        pinned: Some(instance.pinned),
    }
}

proof fn lemma_told(
    statuses: Seq<InstanceStatus>,
    pinned: Seq<bool>,
    instances: Instances,
    now: i64,
    healthy_pids: Seq<u32>,
)
    requires
        reports(statuses, instances, now, healthy_pids),
        tells_pins(statuses, pinned, instances),
    ensures
        keys_differ(shown(statuses_view(statuses), pinned)),
        shown(statuses_view(statuses), pinned).no_duplicates(),
        forall|entry: ShownView| #[trigger]
            shown(statuses_view(statuses), pinned).contains(entry) <==> instances.contains_key(
                entry.status.workspace,
            ) && entry == entry_of(entry.status.workspace, instances, now, healthy_pids),
{
    let views = shown(statuses_view(statuses), pinned);
    assert forall|i: int| 0 <= i < views.len() implies #[trigger] views[i] == entry_of(
        statuses[i]@.workspace,
        instances,
        now,
        healthy_pids,
    ) by {
        assert(statuses_view(statuses)[i] == statuses[i]@);
    }
    assert forall|i: int, j: int| 0 <= i < j < views.len() implies (
    #[trigger] views[i]).status.workspace != (#[trigger] views[j]).status.workspace by {
        assert(statuses[i]@.workspace != statuses[j]@.workspace);
    }
    assert forall|entry: ShownView| #[trigger] views.contains(entry) <==> instances.contains_key(
        entry.status.workspace,
    ) && entry == entry_of(entry.status.workspace, instances, now, healthy_pids) by {
        if views.contains(entry) {
            let i = choose|i: int| 0 <= i < views.len() && views[i] == entry;
            assert(instances.contains_key(statuses[i]@.workspace));
        }
        if instances.contains_key(entry.status.workspace) {
            let i = choose|i: int|
                0 <= i < statuses.len() && (#[trigger] statuses[i])@.workspace
                    == entry.status.workspace;
            assert(views[i] == entry_of(statuses[i]@.workspace, instances, now, healthy_pids));
        }
    }
}

/// The user is shown every instance once, with what is known of it, and with yes or no as it is
/// pinned or not.
pub proof fn law_status_shows_pins(
    statuses: Seq<InstanceStatus>,
    pinned: Seq<bool>,
    instances: Instances,
    now: i64,
    healthy_pids: Seq<u32>,
)
    requires
        reports(statuses, instances, now, healthy_pids),
        tells_pins(statuses, pinned, instances),
    ensures
        ({
            let list = arranged(shown(statuses_view(statuses), pinned));
            &&& list.no_duplicates()
            &&& forall|entry: ShownView| #[trigger]
                list.contains(entry) <==> instances.contains_key(entry.status.workspace) && entry
                    == entry_of(entry.status.workspace, instances, now, healthy_pids)
        }),
{
    broadcast use group_to_multiset_ensures;

    let views = shown(statuses_view(statuses), pinned);
    let list = arranged(views);
    lemma_told(statuses, pinned, instances, now, healthy_pids);
    law_status_shows_each_instance(views);
    lemma_keys_differ(views, list);
    views.to_multiset_ensures();
    list.to_multiset_ensures();
    assert forall|entry: ShownView| #[trigger] list.contains(entry) == views.contains(entry) by {
        assert(list.contains(entry) <==> list.to_multiset().count(entry) > 0);
        assert(views.contains(entry) <==> views.to_multiset().count(entry) > 0);
    }
}

/// What the user is shown depends on the instances alone, not on the order in which the daemon
/// comes upon them.
pub proof fn law_status_depends_on_instances_alone(
    a: Seq<InstanceStatus>,
    a_pinned: Seq<bool>,
    b: Seq<InstanceStatus>,
    b_pinned: Seq<bool>,
    instances: Instances,
    now: i64,
    healthy_pids: Seq<u32>,
)
    requires
        reports(a, instances, now, healthy_pids),
        tells_pins(a, a_pinned, instances),
        reports(b, instances, now, healthy_pids),
        tells_pins(b, b_pinned, instances),
    ensures
        status_text(shown(statuses_view(a), a_pinned)) == status_text(
            shown(statuses_view(b), b_pinned),
        ),
{
    broadcast use group_to_multiset_ensures;

    let (left, right) = (shown(statuses_view(a), a_pinned), shown(statuses_view(b), b_pinned));
    lemma_told(a, a_pinned, instances, now, healthy_pids);
    lemma_told(b, b_pinned, instances, now, healthy_pids);
    left.lemma_multiset_has_no_duplicates();
    right.lemma_multiset_has_no_duplicates();
    assert forall|entry: ShownView| left.to_multiset().count(entry)
        == right.to_multiset().count(entry) by {
        assert(left.contains(entry) == right.contains(entry));
        assert(left.contains(entry) <==> left.to_multiset().count(entry) > 0);
        assert(right.contains(entry) <==> right.to_multiset().count(entry) > 0);
    }
    assert(left.to_multiset() =~= right.to_multiset());
    law_status_ignores_order(left, right);
}

/// A span of time is shown by the two largest of its hours, minutes and seconds that it reaches;
/// one that would be less than none is shown as none.
pub proof fn law_duration_is_shown_by_its_parts(hours: nat, minutes: nat, seconds: nat, less: int)
    requires
        minutes < 60,
        seconds < 60,
        less <= 0,
    ensures
        duration_text(less) == decimal(0) + "s"@,
        duration_text(seconds as int) == decimal(seconds) + "s"@,
        minutes > 0 ==> duration_text((60 * minutes + seconds) as int) == decimal(minutes) + "m "@
            + decimal(seconds) + "s"@,
        hours > 0 ==> duration_text((3600 * hours + 60 * minutes + seconds) as int) == decimal(
            hours,
        ) + "h "@ + decimal(minutes) + "m"@,
{
    assert((60 * minutes + seconds) / 60 == minutes);
    assert((60 * minutes + seconds) % 60 == seconds);
    let whole = 3600 * hours + 60 * minutes + seconds;
    assert(whole / 3600 == hours);
    assert(whole / 60 == 60 * hours + minutes);
    assert((60 * hours + minutes) % 60 == minutes);
}

/// What the user is shown of an instance has its workspace in the first line, then a line each for
/// process, clients and time without use, and one that tells whether it is in order in the end;
/// where a pin is told, the line before that tells yes or no of it.
pub proof fn law_instance_is_shown_in_lines(shown: ShownView)
    ensures
        ({
            let head = "workspace: "@ + shown.status.workspace + "\n  pid:      "@ + decimal(
                shown.status.pid as nat,
            ) + "\n  clients:  "@ + decimal(shown.status.client_count as nat) + "\n  idle:     "@
                + duration_text(shown.status.idle_secs as int) + "\n"@;
            let end = if shown.status.healthy {
                "  healthy:  "@ + "yes"@ + "\n"@
            } else {
                "  healthy:  "@ + "no"@ + "\n"@
            };
            &&& shown.pinned is None ==> instance_text(shown) == head + end
            &&& shown.pinned == Some(true) ==> instance_text(shown) == head + ("  pinned:   "@
                + "yes"@ + "\n"@) + end
            &&& shown.pinned == Some(false) ==> instance_text(shown) == head + ("  pinned:   "@
                + "no"@ + "\n"@) + end
        }),
{
    reveal_strlit("");
    let head = "workspace: "@ + shown.status.workspace + "\n  pid:      "@ + decimal(
        shown.status.pid as nat,
    ) + "\n  clients:  "@ + decimal(shown.status.client_count as nat) + "\n  idle:     "@
        + duration_text(shown.status.idle_secs as int) + "\n"@;
    let answer = yes_or_no(shown.status.healthy);
    let pin = pinned_line(shown.pinned);
    assert(instance_text(shown) =~= head + pin + ("  healthy:  "@ + answer + "\n"@));
    assert(shown.pinned is None ==> head + pin =~= head);
}

/// An instance that is told by itself is shown alone; of several, those in front are shown first,
/// with an empty line before those behind. Where there is none, the user is told so.
pub proof fn law_instances_are_shown_one_after_the_other(
    front: Seq<ShownView>,
    behind: Seq<ShownView>,
    alone: ShownView,
)
    requires
        front.len() > 0,
        behind.len() > 0,
    ensures
        status_text(Seq::empty()) == "no lsp instances\n"@,
        status_text(seq![alone]) == instance_text(alone),
        blocks(front + behind) == blocks(front) + "\n"@ + blocks(behind),
        status_text(front) == blocks(arranged(front)),
    decreases behind.len(),
{
    let one = seq![alone];
    assert(one.drop_last() =~= Seq::<ShownView>::empty());
    assert(arranged(one.drop_last()) =~= Seq::<ShownView>::empty());
    assert(arranged(one) =~= one);
    let whole = front + behind;
    assert(whole.last() == behind.last());
    if behind.len() == 1 {
        assert(whole.drop_last() =~= front);
    } else {
        assert(whole.drop_last() =~= front + behind.drop_last());
        law_instances_are_shown_one_after_the_other(front, behind.drop_last(), alone);
        assert(blocks(whole) =~= blocks(front) + "\n"@ + blocks(behind));
    }
}

/// The instances are told and shown with the pins in turn: each entry has the pin at its place, and
/// none where no more are told.
pub proof fn law_pins_are_taken_in_turn(statuses: Seq<StatusView>, pinned: Seq<bool>, at: int)
    requires
        0 <= at < statuses.len(),
    ensures
        shown(statuses, pinned).len() == statuses.len(),
        shown(statuses, pinned)[at].status == statuses[at],
        at < pinned.len() ==> shown(statuses, pinned)[at].pinned == Some(pinned[at]),
        at >= pinned.len() ==> shown(statuses, pinned)[at].pinned is None,
{
}

/// Of two instances that are shown, the one in front has not the later workspace, and where they
/// have the same workspace, not the larger process.
pub proof fn law_status_is_by_workspace_and_process(list: Seq<ShownView>, front: int, behind: int)
    requires
        0 <= front < behind < list.len(),
    ensures
        ({
            let (a, b) = (arranged(list)[front].status, arranged(list)[behind].status);
            &&& arranged(list).len() == list.len()
            &&& text_before(a.workspace, b.workspace) || (a.workspace == b.workspace && a.pid
                <= b.pid)
        }),
{
    lemma_arranged_len(list);
    law_status_is_in_order(list);
    let (a, b) = (arranged(list)[front], arranged(list)[behind]);
    assert(!status_before(b, a));
    lemma_text_before_order(a.status.workspace, b.status.workspace, a.status.workspace);
}

/// The user is shown of every instance, and of nothing else, what holds of it when the status is
/// asked for: its process, how many clients it has, the time since it was used, whether it is in
/// order, and whether it is pinned.
pub proof fn law_status_shows_what_holds(
    statuses: Seq<InstanceStatus>,
    pinned: Seq<bool>,
    instances: Instances,
    now: i64,
    healthy_pids: Seq<u32>,
    at: int,
)
    requires
        reports(statuses, instances, now, healthy_pids),
        tells_pins(statuses, pinned, instances),
        idle_secs_fit(instances, now),
        0 <= at < statuses.len(),
        instances[arranged(shown(statuses_view(statuses), pinned))[at].status.workspace].clients.len()
            <= usize::MAX,
    ensures
        ({
            let list = arranged(shown(statuses_view(statuses), pinned));
            let entry = list[at];
            let instance = instances[entry.status.workspace];
            &&& list.len() == statuses.len()
            &&& instances.contains_key(entry.status.workspace)
            &&& entry.status.pid == instance.pid
            &&& entry.status.client_count == instance.clients.len()
            &&& entry.status.idle_secs + instance.last_used == now
            &&& entry.status.healthy <==> exists|i: int|
                0 <= i < healthy_pids.len() && healthy_pids[i] == instance.pid
            &&& entry.pinned == Some(instance.pinned)
        }),
{
    let list = arranged(shown(statuses_view(statuses), pinned));
    law_status_shows_pins(statuses, pinned, instances, now, healthy_pids);
    lemma_arranged_len(shown(statuses_view(statuses), pinned));
    assert(list.contains(list[at]));
}

/// Of the instances that ended, each makes one line of its workspace and its process, in the order
/// in which they are told.
pub proof fn law_cleared_instances_are_listed_in_lines(
    front: Seq<ClearedView>,
    behind: Seq<ClearedView>,
    alone: ClearedView,
)
    ensures
        cleared_text(Seq::empty()) == Seq::<char>::empty(),
        cleared_text(seq![alone]) == alone.workspace + " (pid: "@ + decimal(alone.pid as nat)
            + ")\n"@,
        cleared_text(front + behind) == cleared_text(front) + cleared_text(behind),
    decreases behind.len(),
{
    let one = seq![alone];
    assert(one.drop_last() =~= Seq::<ClearedView>::empty());
    assert(cleared_text(one.drop_last()) =~= Seq::<char>::empty());
    assert(cleared_text(one) =~= alone.workspace + " (pid: "@ + decimal(alone.pid as nat)
        + ")\n"@);
    let whole = front + behind;
    if behind.len() == 0 {
        assert(whole =~= front);
        assert(cleared_text(whole) =~= cleared_text(front) + cleared_text(behind));
    } else {
        assert(whole.last() == behind.last());
        assert(whole.drop_last() =~= front + behind.drop_last());
        law_cleared_instances_are_listed_in_lines(front, behind.drop_last(), alone);
        assert(cleared_text(whole) =~= cleared_text(front) + cleared_text(behind));
    }
}

/// What the daemon says went wrong is what the user is told, whatever was asked for.
pub proof fn law_errors_of_the_daemon_are_passed_on(text: String, pid: u32)
    ensures
        ({
            let reply = Reply::Control { message: ControlMessage::Error { message: text } };
            let told = Err::<Seq<char>, ErrorView>(ErrorView::PlainText(text@));
            status_shown(reply) == told && clear_shown(reply) == told && pin_shown(pid, reply)
                == told
        }),
{
}

/// A request succeeds on the answer that belongs to it and on no other reply. A connection that
/// ended is told with the answer that did not come.
pub proof fn law_only_the_awaited_answer_succeeds(reply: Reply, pid: u32)
    ensures
        status_shown(reply) is Ok <==> (reply matches Reply::Control { message } && message
            is StatusResponse),
        clear_shown(reply) is Ok <==> (reply matches Reply::Control { message } && message
            is ClearResponse),
        pin_shown(pid, reply) is Ok <==> (reply matches Reply::Control {
            message: ControlMessage::PinResponse { found },
        } && found),
        pin_shown(pid, reply) is Ok ==> pin_shown(pid, reply)->Ok_0.len() == 0,
        reply is Closed ==> status_shown(reply) == Err::<Seq<char>, ErrorView>(
            ErrorView::PlainText("rad server closed connection before "@ + "status response"@),
        ) && clear_shown(reply) == Err::<Seq<char>, ErrorView>(
            ErrorView::PlainText("rad server closed connection before "@ + "clear response"@),
        ) && pin_shown(pid, reply) == Err::<Seq<char>, ErrorView>(
            ErrorView::PlainText("rad server closed connection before "@ + "pin response"@),
        ),
        (reply matches Reply::Control { message: ControlMessage::PinResponse { found } } && !found)
            ==> pin_shown(pid, reply) == Err::<Seq<char>, ErrorView>(
            ErrorView::PlainText("no lsp instance with pid "@ + decimal(pid as nat)),
        ),
{
    reveal_strlit("");
}

/// The command to pin a process, carried out, pins its instance, or takes the pin away where the
/// command says so, and leaves every other pin; the user is told nothing where there is such an
/// instance, and an error where there is none.
pub proof fn law_pin_command_sets_the_pin(
    pid: u32,
    remove: bool,
    before: ManagerView,
    now: i64,
    healthy_pids: Seq<u32>,
    after: ManagerView,
    answer: ControlMessage,
    workspace: Seq<char>,
)
    requires
        request_of(Mode::Pin { pid, remove }) is Some,
        settles(
            request_of(Mode::Pin { pid, remove })->0,
            before,
            now,
            healthy_pids,
            after,
            Some(answer),
        ),
    ensures
        before.instances.contains_key(workspace) ==> after.instances[workspace].pinned
            == if before.instances[workspace].pid == pid {
            !remove
        } else {
            before.instances[workspace].pinned
        },
        pin_shown(pid, Reply::Control { message: answer }) is Ok <==> exists|other: Seq<char>|
         #[trigger]
            before.instances.contains_key(other) && before.instances[other].pid == pid,
{
    law_pin_request_sets_the_pin(
        pid,
        !remove,
        before,
        now,
        healthy_pids,
        after,
        Some(answer),
        workspace,
    );
}

/// The command to clean, carried out, leaves the instances that have a client or a pin, and none
/// where it is forced.
pub proof fn law_clean_command_ends_instances(
    force: bool,
    before: ManagerView,
    now: i64,
    healthy_pids: Seq<u32>,
    after: ManagerView,
    answer: ControlMessage,
    workspace: Seq<char>,
)
    requires
        request_of(Mode::Clean { force }) is Some,
        settles(
            request_of(Mode::Clean { force })->0,
            before,
            now,
            healthy_pids,
            after,
            Some(answer),
        ),
    ensures
        after.instances.contains_key(workspace) <==> !force && before.instances.contains_key(
            workspace,
        ) && ((exists|client_id: u32| #[trigger]
            before.instances[workspace].clients.contains(client_id))
            || before.instances[workspace].pinned),
        clear_shown(Reply::Control { message: answer }) is Ok,
{
    law_clear_request_ends_what_it_lists(
        force,
        before,
        now,
        healthy_pids,
        after,
        Some(answer),
        workspace,
    );
}

/// A command asks the daemon for something if and only if it is one to show, to clean or to pin,
/// and none asks for what another does.
pub proof fn law_commands_ask_for_different_things(mode: Mode)
    ensures
        request_of(mode) is Some <==> !(mode is Server) && !(mode is Client),
        mode is Status <==> (request_of(mode) matches Some(ControlMessage::StatusRequest)),
        mode is Clean <==> (request_of(mode) matches Some(ControlMessage::ClearRequest { force })),
        mode is Pin <==> (request_of(mode) matches Some(
            ControlMessage::PinRequest { pid, pinned },
        )),
{
}

/// What an editor is given of a message is framed so that it reads the message, whatever follows;
/// of a control message it is given nothing.
pub proof fn law_editor_reads_the_message(value: JsonView, control: ControlView, more: Seq<u8>)
    requires
        parsed_json(json_text(value)) == Some(value),
        json_text(value).len() <= usize::MAX,
    ensures
        given_to_editor(RadView::Control(control)) is None,
        given_to_editor(RadView::Lsp(value)) matches Some(bytes) && lsp_decoded(bytes + more) == (
            Ok::<Option<JsonView>, ErrorView>(Some(value)),
            more,
        ),
{
    law_framed_decodes(value, json_text(value), more);
}

} // verus!
