//! Messages between clients and the daemon: a kind byte, a length and a body.

use bytes::BytesMut;
use vstd::prelude::*;
use vstd::slice::*;
use vstd::string::*;

use super::control_text::{control_bytes, control_read, read_control, write_control};
use super::lsp::LspFrame;
use super::wire::{be_u32, get_u32, law_u32_reads_back, put_u32, u32_at};
use crate::buffer::{advance, buffered, contents};
use crate::error::{Error, ErrorView};
use crate::json::{json_text, parsed_json, JsonView, MAX_NESTING};
use crate::text::{decimal, decimal_text};

verus! {

pub const HEADER_LEN: usize = 5;

pub const KIND_LSP: u8 = 1;

pub const KIND_CONTROL: u8 = 2;

pub const MAX_BODY_LEN: usize = 67_108_864;

/// A message between a client and the daemon.
#[derive(Debug, PartialEq, Eq)]
pub enum RadMessage {
    Lsp(LspFrame),
    Control(ControlMessage),
}

pub enum RadView {
    Lsp(JsonView),
    Control(ControlView),
}

impl View for RadMessage {
    type V = RadView;

    open spec fn view(&self) -> RadView {
        match self {
            RadMessage::Lsp(frame) => RadView::Lsp(frame@),
            RadMessage::Control(message) => RadView::Control(message@),
        }
    }
}

impl Clone for RadMessage {
    fn clone(&self) -> (copy: Self)
        ensures
            copy@ == self@,
    {
        match self {
            RadMessage::Lsp(frame) => RadMessage::Lsp(frame.clone()),
            RadMessage::Control(message) => RadMessage::Control(message.clone()),
        }
    }
}

impl RadView {
    pub open spec fn kind(self) -> u8 {
        match self {
            RadView::Lsp(_) => KIND_LSP,
            RadView::Control(_) => KIND_CONTROL,
        }
    }

    /// The bytes of the body.
    pub open spec fn body(self) -> Seq<u8> {
        match self {
            RadView::Lsp(value) => json_text(value),
            RadView::Control(message) => control_bytes(message),
        }
    }

    /// Whether no float and no nesting stands in the way of writing the message and reading it.
    pub open spec fn is_exact(self) -> bool {
        match self {
            RadView::Lsp(value) => value.exact_within(MAX_NESTING as nat),
            RadView::Control(_) => true,
        }
    }

    /// Whether the body of the message reads back as the message.
    pub open spec fn reads_back(self) -> bool {
        match self {
            RadView::Lsp(value) => parsed_json(json_text(value)) == Some(value),
            RadView::Control(message) => control_read(control_bytes(message)) == Some(message),
        }
    }
}

pub open spec fn too_large(length: nat) -> ErrorView {
    ErrorView::PlainText("rad message body too large: "@ + decimal(length))
}

pub open spec fn unknown_kind(kind: u8) -> ErrorView {
    ErrorView::PlainText("unknown rad message kind: "@ + decimal(kind as nat))
}

/// A body behind its kind and its length.
pub open spec fn packed(kind: u8, body: Seq<u8>) -> Seq<u8> {
    seq![kind] + be_u32(body.len() as u32) + body
}

/// The bytes that a message is sent as.
pub open spec fn rad_encoded(message: RadView) -> Result<Seq<u8>, ErrorView> {
    let body = message.body();
    if body.len() > MAX_BODY_LEN {
        Err(too_large(body.len()))
    } else {
        Ok(packed(message.kind(), body))
    }
}

/// The message that a body of the given kind holds.
pub open spec fn unpacked(kind: u8, body: Seq<u8>) -> Result<Option<RadView>, ErrorView> {
    if kind == KIND_LSP {
        match parsed_json(body) {
            Some(value) => Ok(Some(RadView::Lsp(value))),
            None => Err(ErrorView::InvalidJson),
        }
    } else if kind == KIND_CONTROL {
        match control_read(body) {
            Some(message) => Ok(Some(RadView::Control(message))),
            None => Err(ErrorView::InvalidJson),
        }
    } else {
        Err(unknown_kind(kind))
    }
}

/// What decoding makes of the bytes in a buffer: the message, nothing yet, or an error, and the
/// bytes that stay in the buffer.
pub open spec fn rad_decoded(bytes: Seq<u8>) -> (Result<Option<RadView>, ErrorView>, Seq<u8>) {
    if bytes.len() < HEADER_LEN {
        (Ok(None), bytes)
    } else {
        let length = u32_at(bytes, 1);
        if length > MAX_BODY_LEN {
            (Err(too_large(length as nat)), bytes)
        } else if bytes.len() < HEADER_LEN + length {
            (Ok(None), bytes)
        } else {
            (
                unpacked(bytes[0], bytes.subrange(HEADER_LEN as int, HEADER_LEN + length)),
                bytes.skip(HEADER_LEN + length),
            )
        }
    }
}

pub open spec fn decoded_view(decoded: Result<Option<RadMessage>, Error>) -> Result<
    Option<RadView>,
    ErrorView,
> {
    match decoded {
        Ok(Some(message)) => Ok(Some(message@)),
        Ok(None) => Ok(None),
        Err(error) => Err(error@),
    }
}

/// Puts messages into byte buffers and takes them out again.
#[derive(Default, Debug)]
pub struct RadFrameCocdec;

impl RadFrameCocdec {
    /// Appends the bytes of a message to a buffer; on an error the buffer stays as it is.
    pub fn encode(&mut self, item: RadMessage, dst: &mut BytesMut) -> (encoded: Result<(), Error>)
        requires
            rad_encoded(item@) is Ok ==> buffered(*old(dst)).len() + rad_encoded(item@)->Ok_0.len()
                <= isize::MAX,
        ensures
            match encoded {
                Ok(_) => rad_encoded(item@) is Ok && buffered(*final(dst)) == buffered(*old(dst))
                    + rad_encoded(item@)->Ok_0,
                Err(error) => rad_encoded(item@) == Err::<Seq<u8>, ErrorView>(error@) && buffered(
                    *final(dst),
                ) == buffered(*old(dst)),
            },
            item@.is_exact() ==> item@.reads_back(),
    {
        let (kind, body) = match item {
            RadMessage::Lsp(frame) => match frame.to_json_bytes() {
                Ok(body) => (KIND_LSP, body),
                Err(error) => return Err(error),
            },
            RadMessage::Control(message) => (KIND_CONTROL, write_control(&message)),
        };
        if body.len() > MAX_BODY_LEN {
            return Err(
                Error::PlainText {
                    msg: "rad message body too large: ".to_string().concat(
                        decimal_text(body.len() as u64).as_str(),
                    ),
                },
            );
        }
        let mut header: Vec<u8> = Vec::new();
        header.push(kind);
        put_u32(&mut header, body.len() as u32);
        assert(header@ =~= seq![kind] + be_u32(body.len() as u32));
        dst.extend_from_slice(header.as_slice());
        dst.extend_from_slice(body.as_slice());
        assert(buffered(*dst) =~= buffered(*old(dst)) + packed(kind, body@));
        Ok(())
    }

    /// Takes the next message off the buffer once all of it is there.
    pub fn decode_packet(&mut self, src: &mut BytesMut) -> (decoded: Result<
        Option<RadMessage>,
        Error,
    >)
        ensures
            decoded_view(decoded) == rad_decoded(buffered(*old(src))).0,
            buffered(*final(src)) == rad_decoded(buffered(*old(src))).1,
    {
        let bytes = contents(src);
        if bytes.len() < HEADER_LEN {
            return Ok(None);
        }
        let kind = bytes[0];
        let length = get_u32(bytes, 1) as usize;
        if length > MAX_BODY_LEN {
            return Err(
                Error::PlainText {
                    msg: "rad message body too large: ".to_string().concat(
                        decimal_text(length as u64).as_str(),
                    ),
                },
            );
        }
        if bytes.len() < HEADER_LEN + length {
            return Ok(None);
        }
        let ghost before = bytes@;
        advance(src, HEADER_LEN);
        let front = src.split_to(length);
        let body = contents(&front);
        assert(body@ =~= before.subrange(HEADER_LEN as int, HEADER_LEN + length));
        assert(buffered(*src) =~= before.skip(HEADER_LEN + length));
        if kind == KIND_LSP {
            match LspFrame::from_json_bytes(body) {
                Ok(frame) => Ok(Some(RadMessage::Lsp(frame))),
                Err(error) => Err(error),
            }
        } else if kind == KIND_CONTROL {
            match read_control(body) {
                Some(message) => Ok(Some(RadMessage::Control(message))),
                None => Err(Error::InvalidJson),
            }
        } else {
            Err(
                Error::PlainText {
                    msg: "unknown rad message kind: ".to_string().concat(
                        decimal_text(kind as u64).as_str(),
                    ),
                },
            )
        }
    }
}

impl RadMessage {
    pub fn lsp(frame: LspFrame) -> (message: Self)
        ensures
            message@ == RadView::Lsp(frame@),
    {
        RadMessage::Lsp(frame)
    }

    pub fn control(message: ControlMessage) -> (control: Self)
        ensures
            control@ == RadView::Control(message@),
    {
        RadMessage::Control(message)
    }

    /// The bytes that the message is sent as. Decoding them gives the message back, whatever
    /// follows them, and waits as long as some of them are missing.
    pub fn to_bytes(&self) -> (bytes: Result<Vec<u8>, Error>)
        ensures
            match bytes {
                Ok(bytes) => rad_encoded(self@) == Ok::<Seq<u8>, ErrorView>(bytes@),
                Err(error) => rad_encoded(self@) == Err::<Seq<u8>, ErrorView>(error@),
            },
            self@.is_exact() ==> self@.reads_back(),
            bytes is Ok && self@.is_exact() ==> forall|more: Seq<u8>| #[trigger]
                rad_decoded(bytes->Ok_0@ + more) == (
                    Ok::<Option<RadView>, ErrorView>(Some(self@)),
                    more,
                ),
            bytes is Ok ==> forall|count: int|
                0 <= count < bytes->Ok_0@.len() ==> #[trigger] rad_decoded(
                    bytes->Ok_0@.take(count),
                ) == (Ok::<Option<RadView>, ErrorView>(None), bytes->Ok_0@.take(count)),
    {
        let mut buffer = BytesMut::new();
        match RadFrameCocdec.encode(self.clone(), &mut buffer) {
            Ok(_) => {
                let bytes = slice_to_vec(contents(&buffer));
                assert(bytes@ =~= rad_encoded(self@)->Ok_0);
                proof {
                    if self@.is_exact() {
                        assert forall|more: Seq<u8>| #[trigger] rad_decoded(bytes@ + more) == (
                            Ok::<Option<RadView>, ErrorView>(Some(self@)),
                            more,
                        ) by {
                            law_sent_message_is_received(self@, more);
                        }
                    }
                    assert forall|count: int| 0 <= count < bytes@.len() implies #[trigger]
                    rad_decoded(bytes@.take(count)) == (
                        Ok::<Option<RadView>, ErrorView>(None),
                        bytes@.take(count),
                    ) by {
                        law_partial_message_waits(self@, count);
                    }
                }
                Ok(bytes)
            },
            Err(error) => Err(error),
        }
    }
}

/// What a client asks the daemon, and what the daemon answers.
#[derive(Debug, PartialEq, Eq)]
pub enum ControlMessage {
    StatusRequest,
    /// The instances, and of each in turn whether it is pinned.
    StatusResponse { status: ServerStatus, pins: Vec<bool> },
    ClearRequest { force: bool },
    ClearResponse { cleared: Vec<ClearedInstance> },
    PinRequest { pid: u32, pinned: bool },
    PinResponse { found: bool },
    Error { message: String },
}

/// An instance that was shut down on request.
#[derive(Debug, PartialEq, Eq)]
pub struct ClearedInstance {
    pub workspace: String,
    pub pid: u32,
}

#[derive(Debug, PartialEq, Eq)]
pub struct ServerStatus {
    pub instances: Vec<InstanceStatus>,
}

/// What the daemon tells of an instance.
#[derive(Debug, PartialEq, Eq)]
pub struct InstanceStatus {
    pub workspace: String,
    pub pid: u32,
    pub client_count: usize,
    pub idle_secs: i64,
    pub healthy: bool,
}

pub struct ClearedView {
    pub workspace: Seq<char>,
    pub pid: u32,
}

impl View for ClearedInstance {
    type V = ClearedView;

    open spec fn view(&self) -> ClearedView {
        ClearedView { workspace: self.workspace@, pid: self.pid }
    }
}

pub struct StatusView {
    pub workspace: Seq<char>,
    pub pid: u32,
    pub client_count: usize,
    pub idle_secs: i64,
    pub healthy: bool,
}

impl View for InstanceStatus {
    type V = StatusView;

    open spec fn view(&self) -> StatusView {
        StatusView {
            workspace: self.workspace@,
            pid: self.pid,
            client_count: self.client_count,
            idle_secs: self.idle_secs,
            healthy: self.healthy,
        }
    }
}

pub enum ControlView {
    StatusRequest,
    StatusResponse { instances: Seq<StatusView>, pins: Seq<bool> },
    ClearRequest { force: bool },
    ClearResponse { cleared: Seq<ClearedView> },
    PinRequest { pid: u32, pinned: bool },
    PinResponse { found: bool },
    Error { message: Seq<char> },
}

impl View for ControlMessage {
    type V = ControlView;

    open spec fn view(&self) -> ControlView {
        match self {
            ControlMessage::StatusRequest => ControlView::StatusRequest,
            ControlMessage::StatusResponse { status, pins } => ControlView::StatusResponse {
                instances: statuses_view(status.instances@),
                pins: pins@,
            },
            ControlMessage::ClearRequest { force } => ControlView::ClearRequest { force: *force },
            ControlMessage::ClearResponse { cleared } => ControlView::ClearResponse {
                cleared: cleared_view(cleared@),
            },
            ControlMessage::PinRequest { pid, pinned } => ControlView::PinRequest {
                pid: *pid,
                pinned: *pinned,
            },
            ControlMessage::PinResponse { found } => ControlView::PinResponse { found: *found },
            ControlMessage::Error { message } => ControlView::Error { message: message@ },
        }
    }
}

impl Clone for ClearedInstance {
    fn clone(&self) -> (copy: Self)
        ensures
            copy@ == self@,
    {
        ClearedInstance { workspace: self.workspace.clone(), pid: self.pid }
    }
}

impl Clone for InstanceStatus {
    fn clone(&self) -> (copy: Self)
        ensures
            copy@ == self@,
    {
        InstanceStatus {
            workspace: self.workspace.clone(),
            pid: self.pid,
            client_count: self.client_count,
            idle_secs: self.idle_secs,
            healthy: self.healthy,
        }
    }
}

impl Clone for ServerStatus {
    fn clone(&self) -> (copy: Self)
        ensures
            statuses_view(copy.instances@) == statuses_view(self.instances@),
    {
        let instances = self.instances.clone();
        assert(statuses_view(instances@) =~= statuses_view(self.instances@));
        ServerStatus { instances }
    }
}

impl Clone for ControlMessage {
    fn clone(&self) -> (copy: Self)
        ensures
            copy@ == self@,
    {
        match self {
            ControlMessage::StatusRequest => ControlMessage::StatusRequest,
            ControlMessage::StatusResponse { status, pins } => {
                let copy = pins.clone();
                assert(copy@ =~= pins@);
                ControlMessage::StatusResponse { status: status.clone(), pins: copy }
            },
            ControlMessage::ClearRequest { force } => ControlMessage::ClearRequest {
                force: *force,
            },
            ControlMessage::ClearResponse { cleared } => {
                let copy = cleared.clone();
                assert(cleared_view(copy@) =~= cleared_view(cleared@));
                ControlMessage::ClearResponse { cleared: copy }
            },
            ControlMessage::PinRequest { pid, pinned } => ControlMessage::PinRequest {
                pid: *pid,
                pinned: *pinned,
            },
            ControlMessage::PinResponse { found } => ControlMessage::PinResponse { found: *found },
            ControlMessage::Error { message } => ControlMessage::Error { message: message.clone() },
        }
    }
}

pub open spec fn statuses_view(statuses: Seq<InstanceStatus>) -> Seq<StatusView> {
    statuses.map_values(|status: InstanceStatus| status@)
}

pub open spec fn cleared_view(cleared: Seq<ClearedInstance>) -> Seq<ClearedView> {
    cleared.map_values(|entry: ClearedInstance| entry@)
}

proof fn lemma_packed(kind: u8, body: Seq<u8>, more: Seq<u8>)
    requires
        body.len() <= MAX_BODY_LEN,
    ensures
        packed(kind, body).len() == HEADER_LEN + body.len(),
        (packed(kind, body) + more)[0] == kind,
        u32_at(packed(kind, body) + more, 1) == body.len(),
        (packed(kind, body) + more).subrange(HEADER_LEN as int, HEADER_LEN + body.len()) == body,
        (packed(kind, body) + more).skip(HEADER_LEN + body.len()) == more,
{
    law_u32_reads_back(body.len() as u32, seq![kind], body + more);
    assert(packed(kind, body) + more =~= seq![kind] + be_u32(body.len() as u32) + (body + more));
    assert((packed(kind, body) + more).subrange(HEADER_LEN as int, HEADER_LEN + body.len())
        =~= body);
    assert((packed(kind, body) + more).skip(HEADER_LEN + body.len()) =~= more);
}

/// What a message is sent as decodes to the message, whatever follows it, as long as its body
/// reads back, and leaves what follows in the buffer.
pub proof fn law_sent_message_is_received(message: RadView, more: Seq<u8>)
    requires
        rad_encoded(message) is Ok,
        message.reads_back(),
    ensures
        rad_decoded(rad_encoded(message)->Ok_0 + more) == (
            Ok::<Option<RadView>, ErrorView>(Some(message)),
            more,
        ),
{
    lemma_packed(message.kind(), message.body(), more);
}

/// As long as bytes of a message are missing, decoding gives nothing and takes nothing, wherever
/// the bytes were cut.
pub proof fn law_partial_message_waits(message: RadView, count: int)
    requires
        rad_encoded(message) is Ok,
        0 <= count < rad_encoded(message)->Ok_0.len(),
    ensures
        rad_decoded(rad_encoded(message)->Ok_0.take(count)) == (
            Ok::<Option<RadView>, ErrorView>(None),
            rad_encoded(message)->Ok_0.take(count),
        ),
{
    let bytes = rad_encoded(message)->Ok_0;
    let empty = Seq::<u8>::empty();
    lemma_packed(message.kind(), message.body(), empty);
    assert(bytes + empty =~= bytes);
    let part = bytes.take(count);
    if count >= HEADER_LEN {
        assert(part[1] == bytes[1] && part[2] == bytes[2] && part[3] == bytes[3] && part[4]
            == bytes[4]);
    }
}

/// Once decoding gives a message or an error, bytes that arrive later change neither, and stay
/// in the buffer behind what was there.
pub proof fn law_receiving_is_stable(bytes: Seq<u8>, more: Seq<u8>)
    requires
        !(rad_decoded(bytes).0 matches Ok(None)),
    ensures
        rad_decoded(bytes + more) == (rad_decoded(bytes).0, rad_decoded(bytes).1 + more),
{
    if bytes.len() >= HEADER_LEN {
        let all = bytes + more;
        let length = u32_at(bytes, 1);
        assert(all[0] == bytes[0] && all[1] == bytes[1] && all[2] == bytes[2] && all[3] == bytes[3]
            && all[4] == bytes[4]);
        if HEADER_LEN + length <= bytes.len() {
            assert(all.subrange(HEADER_LEN as int, HEADER_LEN + length) =~= bytes.subrange(
                HEADER_LEN as int,
                HEADER_LEN + length,
            ));
            assert(all.skip(HEADER_LEN + length) =~= bytes.skip(HEADER_LEN + length) + more);
        }
    }
}

/// The bytes of messages that are sent one after the other.
pub open spec fn sent(messages: Seq<RadView>) -> Seq<u8>
    decreases messages.len(),
{
    if messages.len() == 0 {
        Seq::empty()
    } else {
        rad_encoded(messages[0])->Ok_0 + sent(messages.drop_first())
    }
}

/// The messages that decoding takes off the bytes, up to `count` of them, and the bytes that stay.
pub open spec fn received(bytes: Seq<u8>, count: nat) -> (Seq<RadView>, Seq<u8>)
    decreases count,
{
    if count == 0 {
        (Seq::empty(), bytes)
    } else {
        match rad_decoded(bytes) {
            (Ok(Some(message)), rest) => {
                let (others, end) = received(rest, (count - 1) as nat);
                (seq![message] + others, end)
            },
            _ => (Seq::empty(), bytes),
        }
    }
}

/// Messages that are sent one after the other are received as they are, in the same order.
pub proof fn law_messages_are_received_in_order(messages: Seq<RadView>, more: Seq<u8>)
    requires
        forall|i: int|
            0 <= i < messages.len() ==> rad_encoded(#[trigger] messages[i]) is Ok
                && messages[i].reads_back(),
    ensures
        received(sent(messages) + more, messages.len()) == (messages, more),
    decreases messages.len(),
{
    if messages.len() == 0 {
        assert(sent(messages) + more =~= more);
        assert(messages =~= Seq::empty());
    } else {
        let rest = messages.drop_first();
        assert forall|i: int| 0 <= i < rest.len() implies rad_encoded(#[trigger] rest[i]) is Ok
            && rest[i].reads_back() by {
            assert(rest[i] == messages[i + 1]);
        }
        law_messages_are_received_in_order(rest, more);
        law_sent_message_is_received(messages[0], sent(rest) + more);
        let bytes = sent(messages) + more;
        assert(bytes =~= rad_encoded(messages[0])->Ok_0 + (sent(rest) + more));
        assert(rad_decoded(bytes) == (
            Ok::<Option<RadView>, ErrorView>(Some(messages[0])),
            sent(rest) + more,
        ));
        let (others, end) = received(sent(rest) + more, rest.len());
        assert(others == rest && end == more);
        assert(rest.len() == messages.len() - 1);
        assert(received(bytes, messages.len()) == (seq![messages[0]] + others, end));
        assert(seq![messages[0]] + rest =~= messages);
    }
}

/// A message is sent as one byte that tells its kind, four that tell the length of its body with
/// the largest first, and the body: the JSON text of a language server message, or the text of a
/// control message. One with a body of more than 64 MiB is not sent.
pub proof fn law_message_layout(message: RadView)
    ensures
        ({
            let body = match message {
                RadView::Lsp(value) => json_text(value),
                RadView::Control(control) => control_bytes(control),
            };
            let kind: u8 = if message is Lsp {
                1
            } else {
                2
            };
            &&& rad_encoded(message) is Ok <==> body.len() <= 64 * 1024 * 1024
            &&& rad_encoded(message) matches Ok(bytes) ==> bytes.len() == 5 + body.len()
                && bytes[0] == kind && bytes[1] * 0x100_0000 + bytes[2] * 0x1_0000 + bytes[3]
                * 0x100 + bytes[4] == body.len() && bytes.skip(5) == body
            &&& rad_encoded(message) matches Err(error) ==> error == ErrorView::PlainText(
                "rad message body too large: "@ + decimal(body.len()),
            )
        }),
{
    if let Ok(bytes) = rad_encoded(message) {
        let empty = Seq::<u8>::empty();
        lemma_packed(message.kind(), message.body(), empty);
        assert(bytes + empty =~= bytes);
        assert(bytes.skip(5) =~= message.body());
    }
}

/// Bytes are taken off a buffer as they are laid out: a kind, a length and as many bytes of a body.
/// What the body reads as is the message, by its kind; what does not read, or is of no known kind,
/// is an error, and the bytes are gone. What follows stays.
pub proof fn law_message_is_taken_off_by_its_length(
    head: Seq<u8>,
    body: Seq<u8>,
    more: Seq<u8>,
    value: JsonView,
    control: ControlView,
)
    requires
        head.len() == 5,
        head[1] * 0x100_0000 + head[2] * 0x1_0000 + head[3] * 0x100 + head[4] == body.len(),
        body.len() <= 64 * 1024 * 1024,
    ensures
        ({
            let (taken, rest) = rad_decoded(head + body + more);
            let none = Err::<Option<RadView>, ErrorView>(ErrorView::InvalidJson);
            &&& rest == more
            &&& head[0] == 1 && parsed_json(body) == Some(value) ==> taken == Ok::<
                Option<RadView>,
                ErrorView,
            >(Some(RadView::Lsp(value)))
            &&& head[0] == 1 && parsed_json(body) is None ==> taken == none
            &&& head[0] == 2 && control_read(body) == Some(control) ==> taken == Ok::<
                Option<RadView>,
                ErrorView,
            >(Some(RadView::Control(control)))
            &&& head[0] == 2 && control_read(body) is None ==> taken == none
            &&& head[0] != 1 && head[0] != 2 ==> taken == Err::<Option<RadView>, ErrorView>(
                ErrorView::PlainText("unknown rad message kind: "@ + decimal(head[0] as nat)),
            )
        }),
{
    let bytes = head + body + more;
    assert(bytes[0] == head[0] && bytes[1] == head[1] && bytes[2] == head[2] && bytes[3] == head[3]
        && bytes[4] == head[4]);
    assert(bytes.subrange(5, 5 + body.len() as int) =~= body);
    assert(bytes.skip(5 + body.len() as int) =~= more);
}

/// As long as the head of a message is not complete, or its body is not, nothing is taken; a head
/// that tells of a body of more than 64 MiB is an error, and nothing is taken either.
pub proof fn law_incomplete_or_oversized_takes_nothing(bytes: Seq<u8>)
    ensures
        bytes.len() < 5 ==> rad_decoded(bytes) == (
            Ok::<Option<RadView>, ErrorView>(None),
            bytes,
        ),
        bytes.len() >= 5 ==> {
            let length = bytes[1] * 0x100_0000 + bytes[2] * 0x1_0000 + bytes[3] * 0x100 + bytes[4];
            &&& length > 64 * 1024 * 1024 ==> rad_decoded(bytes) == (
                Err::<Option<RadView>, ErrorView>(
                    ErrorView::PlainText("rad message body too large: "@ + decimal(length as nat)),
                ),
                bytes,
            )
            &&& length <= 64 * 1024 * 1024 && bytes.len() < 5 + length ==> rad_decoded(bytes) == (
                Ok::<Option<RadView>, ErrorView>(None),
                bytes,
            )
        },
{
}

} // verus!
