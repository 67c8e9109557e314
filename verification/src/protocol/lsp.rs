//! Language server messages: their framing on a byte stream, and what the daemon reads in them.

use bytes::BytesMut;
use serde_json::Value;
use vstd::prelude::*;
use vstd::slice::*;
use vstd::string::*;
use vstd::utf8::*;

use crate::buffer::{advance, buffered, contents};
use crate::error::{Error, ErrorView};
use crate::json::{
    empty_object, integer_value, json_of, json_text, member, null_value, parse, parsed_json,
    put_member, render, text_value, JsonView, NumberView, MAX_NESTING,
};
use crate::text::{
    ascii_lower, chars_of, decimal, decimal_text, find_char, is_digit, is_word, lemma_decimal,
    lemma_position, lemma_position_at, parse_usize, position, read_usize, same_ignoring_case, same_text, trim, trim_bounds, trim_end,
    trim_start, utf8_complaint, utf8_text,
};

verus! {

pub type ClientId = u32;

/// The empty line that ends the header of a message.
pub open spec fn header_delimiter() -> Seq<u8> {
    seq![13u8, 10u8, 13u8, 10u8]
}

/// Where the first empty line starts.
pub open spec fn header_end(bytes: Seq<u8>) -> Option<int>
    decreases bytes.len(),
{
    if bytes.len() < 4 {
        None
    } else if bytes.take(4) == header_delimiter() {
        Some(0)
    } else {
        match header_end(bytes.drop_first()) {
            Some(end) => Some(end + 1),
            None => None,
        }
    }
}

/// Where the first line of a text ends: at a line break, or with the text.
pub open spec fn line_end(text: Seq<char>) -> int
    decreases text.len(),
{
    if text.len() == 0 {
        0
    } else if text.len() >= 2 && text[0] == '\r' && text[1] == '\n' {
        0
    } else {
        line_end(text.drop_first()) + 1
    }
}

/// What follows the colon of a line whose field name is `Content-Length`.
pub open spec fn length_field(line: Seq<char>) -> Option<Seq<char>> {
    match position(line, ':') {
        Some(at) => if same_ignoring_case(trim(line.take(at)), "content-length"@) {
            Some(line.skip(at + 1))
        } else {
            None
        },
        None => None,
    }
}

/// The length that the first `Content-Length` field of a header text gives.
pub open spec fn stated_length(text: Seq<char>) -> Result<usize, ErrorView>
    decreases text.len(),
{
    let end = line_end(text);
    match length_field(text.take(end)) {
        Some(value) => match parse_usize(trim(value)) {
            Some(length) => Ok(length),
            None => Err(ErrorView::InvalidContentLength),
        },
        None => if 0 <= end && end + 2 <= text.len() {
            stated_length(text.skip(end + 2))
        } else {
            Err(ErrorView::MissingContentLength)
        },
    }
}

/// The body length that the header of a message gives.
pub open spec fn content_length(headers: Seq<u8>) -> Result<usize, ErrorView> {
    if valid_utf8(headers) {
        stated_length(decode_utf8(headers))
    } else {
        Err(ErrorView::InvalidHeaderUtf8(utf8_complaint(headers)))
    }
}

proof fn lemma_header_end(bytes: Seq<u8>)
    ensures
        match header_end(bytes) {
            Some(end) => 0 <= end && end + 4 <= bytes.len() && bytes.subrange(end, end + 4)
                == header_delimiter(),
            None => true,
        },
    decreases bytes.len(),
{
    if bytes.len() >= 4 {
        if bytes.take(4) == header_delimiter() {
            assert(bytes.subrange(0, 4) =~= bytes.take(4));
        } else {
            let rest = bytes.drop_first();
            lemma_header_end(rest);
            if let Some(end) = header_end(rest) {
                assert(bytes.subrange(end + 1, end + 5) =~= rest.subrange(end, end + 4));
            }
        }
    }
}

proof fn lemma_line_end(text: Seq<char>)
    ensures
        0 <= line_end(text) <= text.len(),
        line_end(text) < text.len() ==> line_end(text) + 2 <= text.len(),
    decreases text.len(),
{
    if text.len() > 0 && !(text.len() >= 2 && text[0] == '\r' && text[1] == '\n') {
        lemma_line_end(text.drop_first());
    }
}

/// Finds the empty line that ends the header.
pub fn find_header_end(buf: &[u8]) -> (end: Option<usize>)
    ensures
        match end {
            Some(end) => header_end(buf@) == Some(end as int),
            None => header_end(buf@) is None,
        },
{
    let mut i: usize = 0;
    assert(buf@.skip(0) =~= buf@);
    while i < buf.len() && buf.len() - i >= 4
        invariant
            i <= buf@.len(),
            match header_end(buf@.skip(i as int)) {
                Some(end) => header_end(buf@) == Some(end + i as int),
                None => header_end(buf@) is None,
            },
        decreases buf@.len() - i,
    {
        let ghost rest = buf@.skip(i as int);
        if buf[i] == 13 && buf[i + 1] == 10 && buf[i + 2] == 13 && buf[i + 3] == 10 {
            assert(rest.take(4) =~= header_delimiter());
            return Some(i);
        }
        assert(rest.take(4) != header_delimiter()) by {
            assert(rest.take(4)[0] == buf@[i as int]);
            assert(rest.take(4)[1] == buf@[i + 1]);
            assert(rest.take(4)[2] == buf@[i + 2]);
            assert(rest.take(4)[3] == buf@[i + 3]);
        }
        assert(rest.drop_first() =~= buf@.skip(i + 1));
        i = i + 1;
    }
    None
}

fn find_line_end(chars: &Vec<char>, start: usize) -> (end: usize)
    requires
        start <= chars@.len(),
    ensures
        start <= end <= chars@.len(),
        end == start + line_end(chars@.skip(start as int)),
{
    let mut i: usize = start;
    while i < chars.len()
        invariant
            start <= i <= chars@.len(),
            line_end(chars@.skip(start as int)) == line_end(chars@.skip(i as int)) + (i - start),
        decreases chars@.len() - i,
    {
        if chars.len() - i >= 2 && chars[i] == '\r' && chars[i + 1] == '\n' {
            return i;
        }
        assert(chars@.skip(i as int).drop_first() =~= chars@.skip(i + 1));
        i = i + 1;
    }
    i
}

/// What an outcome is, free of how its error is stored.
pub open spec fn outcome<T>(result: Result<T, Error>) -> Result<T, ErrorView> {
    match result {
        Ok(value) => Ok(value),
        Err(error) => Err(error@),
    }
}

/// Reads the body length from the header of a message.
pub fn parse_content_length(headers: &[u8]) -> (length: Result<usize, Error>)
    ensures
        outcome(length) == content_length(headers@),
{
    let text = match utf8_text(headers) {
        Ok(text) => text,
        Err(source) => return Err(Error::InvalidHeaderUtf8 { source }),
    };
    proof {
        encode_utf8_decode_utf8(text@);
    }
    let chars = chars_of(text);
    let mut start: usize = 0;
    assert(chars@.skip(0) =~= chars@);
    loop
        invariant
            start <= chars@.len(),
            content_length(headers@) == stated_length(chars@.skip(start as int)),
        decreases chars@.len() - start,
    {
        let ghost rest = chars@.skip(start as int);
        let end = find_line_end(&chars, start);
        proof {
            lemma_line_end(rest);
        }
        let ghost line = rest.take(line_end(rest));
        assert(line =~= chars@.subrange(start as int, end as int));
        if let Some(at) = find_char(&chars, start, end, ':') {
            let (name_start, name_end) = trim_bounds(&chars, start, at);
            assert(chars@.subrange(start as int, at as int) =~= line.take(at - start));
            if is_word(&chars, name_start, name_end, "content-length") {
                let (value_start, value_end) = trim_bounds(&chars, at + 1, end);
                assert(chars@.subrange(at + 1, end as int) =~= line.skip(at - start + 1));
                return match read_usize(&chars, value_start, value_end) {
                    Some(length) => Ok(length),
                    None => Err(Error::InvalidContentLength),
                };
            }
        }
        if end == chars.len() {
            return Err(Error::MissingContentLength);
        }
        assert(rest.skip(end - start + 2) =~= chars@.skip(end + 2));
        start = end + 2;
    }
}

/// Where a message at the start of the bytes has its header end, its body start and its end, or
/// `None` while bytes of it are missing.
pub open spec fn frame_bounds(bytes: Seq<u8>) -> Result<Option<(int, int, int)>, ErrorView> {
    match header_end(bytes) {
        None => Ok(None),
        Some(end) => match content_length(bytes.take(end)) {
            Err(error) => Err(error),
            Ok(length) => if bytes.len() < end + 4 + length {
                Ok(None)
            } else {
                Ok(Some((end, end + 4, end + 4 + length)))
            },
        },
    }
}

/// Whether the end of the message that the bytes start with can be counted at all.
pub open spec fn bounds_fit(bytes: Seq<u8>) -> bool {
    match header_end(bytes) {
        None => true,
        Some(end) => valid_utf8(bytes.take(end)) ==> match stated_length(
            decode_utf8(bytes.take(end)),
        ) {
            Err(_) => true,
            Ok(length) => end + 4 + length <= usize::MAX,
        },
    }
}

/// Whether the message that the bytes start with can be decoded without running out of `usize`.
pub fn length_fits(src: &[u8]) -> (fits: bool)
    ensures
        fits == bounds_fit(src@),
{
    proof {
        lemma_header_end(src@);
    }
    match find_header_end(src) {
        None => true,
        Some(end) => {
            let headers = slice_subrange(src, 0, end);
            assert(headers@ =~= src@.take(end as int));
            assert(end + 4 <= src.len());
            match parse_content_length(headers) {
                Err(_) => true,
                Ok(length) => length <= usize::MAX - (end + 4),
            }
        },
    }
}

/// Finds the bounds of the message that the bytes start with.
pub fn decode_frame_bounds(src: &[u8]) -> (bounds: Result<Option<(usize, usize, usize)>, Error>)
    requires
        bounds_fit(src@),
    ensures
        match bounds {
            Ok(Some((end, start, total))) => frame_bounds(src@) == Ok::<
                Option<(int, int, int)>,
                ErrorView,
            >(Some((end as int, start as int, total as int))),
            Ok(None) => frame_bounds(src@) == Ok::<Option<(int, int, int)>, ErrorView>(None),
            Err(error) => frame_bounds(src@) == Err::<Option<(int, int, int)>, ErrorView>(error@),
        },
{
    proof {
        lemma_header_end(src@);
    }
    let end = match find_header_end(src) {
        Some(end) => end,
        None => return Ok(None),
    };
    let headers = slice_subrange(src, 0, end);
    assert(headers@ =~= src@.take(end as int));
    let length = match parse_content_length(headers) {
        Ok(length) => length,
        Err(error) => return Err(error),
    };
    let start = end + 4;
    let total = start + length;
    if src.len() < total {
        return Ok(None);
    }
    Ok(Some((end, start, total)))
}

/// What decoding makes of the bytes in a buffer: the message, nothing yet, or an error, and the
/// bytes that stay in the buffer.
pub open spec fn lsp_decoded(bytes: Seq<u8>) -> (Result<Option<JsonView>, ErrorView>, Seq<u8>) {
    match frame_bounds(bytes) {
        Err(error) => (Err(error), bytes),
        Ok(None) => (Ok(None), bytes),
        Ok(Some((_, start, total))) => (
            match parsed_json(bytes.subrange(start, total)) {
                Some(body) => Ok(Some(body)),
                None => Err(ErrorView::InvalidJson),
            },
            bytes.skip(total),
        ),
    }
}

/// What decoding gave, free of how message and error are stored.
pub open spec fn decoded_view(decoded: Result<Option<LspFrame>, Error>) -> Result<
    Option<JsonView>,
    ErrorView,
> {
    match decoded {
        Ok(Some(frame)) => Ok(Some(frame@)),
        Ok(None) => Ok(None),
        Err(error) => Err(error@),
    }
}

/// Takes messages off the front of a byte buffer.
#[derive(Default, Debug)]
pub struct LspFrameDecoder;

impl LspFrameDecoder {
    /// Takes the next message off the buffer once all of it is there.
    pub fn decode_packet(&mut self, src: &mut BytesMut) -> (decoded: Result<Option<LspFrame>, Error>)
        requires
            bounds_fit(buffered(*old(src))),
        ensures
            decoded_view(decoded) == lsp_decoded(buffered(*old(src))).0,
            buffered(*final(src)) == lsp_decoded(buffered(*old(src))).1,
    {
        let bytes = contents(src);
        proof {
            lemma_header_end(bytes@);
        }
        let (start, total) = match decode_frame_bounds(bytes) {
            Err(error) => return Err(error),
            Ok(None) => return Ok(None),
            Ok(Some((_, start, total))) => (start, total),
        };
        let body_bytes = slice_to_vec(slice_subrange(bytes, start, total));
        advance(src, total);
        match parse(body_bytes.as_slice()) {
            Ok(body) => Ok(Some(LspFrame::new(body))),
            Err(_) => Err(Error::InvalidJson),
        }
    }
}

/// Decodes the message that the bytes start with.
pub fn decode_single_packet(bytes: &[u8]) -> (decoded: Result<Option<LspFrame>, Error>)
    requires
        bounds_fit(bytes@),
    ensures
        decoded_view(decoded) == lsp_decoded(bytes@).0,
{
    let mut decoder = LspFrameDecoder;
    let mut src = BytesMut::new();
    assert(bytes.len() == bytes@.len());
    src.extend_from_slice(bytes);
    assert(buffered(src) =~= bytes@);
    decoder.decode_packet(&mut src)
}

/// The id of a request: a number or a text.
#[derive(Debug, PartialEq, Eq, Hash)]
pub enum JsonRpcId {
    Number(i64),
    String(String),
}

pub enum IdView {
    Number(i64),
    Text(Seq<char>),
}

impl View for JsonRpcId {
    type V = IdView;

    open spec fn view(&self) -> IdView {
        match self {
            JsonRpcId::Number(number) => IdView::Number(*number),
            JsonRpcId::String(text) => IdView::Text(text@),
        }
    }
}

impl IdView {
    /// The JSON value of an id.
    pub open spec fn json(self) -> JsonView {
        match self {
            IdView::Number(number) => JsonView::Number(NumberView::Integer(number as int)),
            IdView::Text(text) => JsonView::Text(text),
        }
    }

    /// The id that a JSON value is: an integer that an `i64` holds, or a string.
    pub open spec fn from_json(value: JsonView) -> Option<IdView> {
        match value.integer() {
            Some(number) => Some(IdView::Number(number)),
            None => match value.text() {
                Some(text) => Some(IdView::Text(text)),
                None => None,
            },
        }
    }
}

pub open spec fn opt_id(id: Option<JsonRpcId>) -> Option<IdView> {
    match id {
        Some(id) => Some(id@),
        None => None,
    }
}

impl JsonRpcId {
    /// Reads an id off a JSON value.
    pub fn from_value(value: &Value) -> (id: Option<JsonRpcId>)
        ensures
            opt_id(id) == IdView::from_json(json_of(*value)),
    {
        if let Some(number) = value.as_i64() {
            return Some(JsonRpcId::Number(number));
        }
        match value.as_str() {
            Some(text) => Some(JsonRpcId::String(text.to_string())),
            None => None,
        }
    }

    /// The JSON value of the id.
    pub fn into_value(self) -> (value: Value)
        ensures
            json_of(value) == self@.json(),
    {
        match self {
            JsonRpcId::Number(number) => integer_value(number),
            JsonRpcId::String(text) => text_value(text),
        }
    }
}

impl Clone for JsonRpcId {
    fn clone(&self) -> (copy: Self)
        ensures
            copy@ == self@,
    {
        match self {
            JsonRpcId::Number(number) => JsonRpcId::Number(*number),
            JsonRpcId::String(text) => JsonRpcId::String(text.clone()),
        }
    }
}

/// What the daemon reads in a message.
impl JsonView {
    pub open spec fn method(self) -> Option<Seq<char>> {
        match self.member("method"@) {
            Some(method) => method.text(),
            None => None,
        }
    }

    pub open spec fn is_method(self, target: Seq<char>) -> bool {
        self.method() == Some(target)
    }

    pub open spec fn is_request_method(self, target: Seq<char>) -> bool {
        self.is_method(target) && self.member("id"@) is Some
    }

    pub open spec fn is_request(self) -> bool {
        self.member("method"@) is Some && self.member("id"@) is Some
    }

    pub open spec fn is_response(self) -> bool {
        self.member("id"@) is Some && (self.member("result"@) is Some || self.member("error"@)
            is Some)
    }

    pub open spec fn is_success_response(self) -> bool {
        self.member("id"@) is Some && self.member("result"@) is Some
    }

    pub open spec fn id(self) -> Option<IdView> {
        match self.member("id"@) {
            Some(id) => IdView::from_json(id),
            None => None,
        }
    }

    pub open spec fn with_id(self, id: IdView) -> JsonView {
        self.with_member("id"@, id.json())
    }

    /// The id of the request that a cancel notification is for.
    pub open spec fn cancel_request_id(self) -> Option<IdView> {
        if self.is_method("$/cancelRequest"@) {
            match self.member("params"@) {
                Some(params) => params.id(),
                None => None,
            }
        } else {
            None
        }
    }

    pub open spec fn with_cancel_request_id(self, id: IdView) -> JsonView {
        match self.member("params"@) {
            Some(params) => self.with_member("params"@, params.with_id(id)),
            None => self,
        }
    }

    /// The address of the first workspace folder.
    pub open spec fn first_folder(self) -> Option<Seq<char>> {
        match self.member("workspaceFolders"@) {
            Some(JsonView::Array(folders)) => if folders.len() > 0 {
                match folders[0].member("uri"@) {
                    Some(uri) => uri.text(),
                    None => None,
                }
            } else {
                None
            },
            _ => None,
        }
    }

    /// The text of a member that is there and not empty.
    pub open spec fn filled_text(self, key: Seq<char>) -> Option<Seq<char>> {
        match self.member(key) {
            Some(value) => match value.text() {
                Some(text) => if text.len() > 0 {
                    Some(text)
                } else {
                    None
                },
                None => None,
            },
            None => None,
        }
    }

    /// The workspace that an initialize message asks for: its first folder, else the root
    /// address, else the root path.
    pub open spec fn workspace_key(self) -> Option<Seq<char>> {
        if !self.is_method("initialize"@) {
            None
        } else {
            match self.member("params"@) {
                None => None,
                Some(params) => match params.first_folder() {
                    Some(uri) => Some(uri),
                    None => match params.filled_text("rootUri"@) {
                        Some(uri) => Some(uri),
                        None => params.filled_text("rootPath"@),
                    },
                },
            }
        }
    }

    /// The response that gives a request no result.
    pub open spec fn empty_response(id: JsonView) -> JsonView {
        JsonView::Object(
            Map::empty().insert("jsonrpc"@, JsonView::Text("2.0"@)).insert("id"@, id).insert(
                "result"@,
                JsonView::Null,
            ),
        )
    }

    pub open spec fn shutdown_response(self) -> Option<JsonView> {
        if self.is_request_method("shutdown"@) {
            match self.id() {
                Some(id) => Some(JsonView::empty_response(id.json())),
                None => None,
            }
        } else {
            None
        }
    }
}

/// Builds the response that gives a request no result.
pub(crate) fn empty_response(id: Value) -> (response: Value)
    ensures
        json_of(response) == JsonView::empty_response(json_of(id)),
{
    let mut response = empty_object();
    put_member(&mut response, "jsonrpc".to_string(), text_value("2.0".to_string()));
    put_member(&mut response, "id".to_string(), id);
    put_member(&mut response, "result".to_string(), null_value());
    response
}

/// The header that precedes a body of the given length.
pub open spec fn frame_header(length: nat) -> Seq<char> {
    "Content-Length: "@ + decimal(length) + "\r\n\r\n"@
}

/// A body behind its header.
pub open spec fn framed(body: Seq<u8>) -> Seq<u8> {
    encode_utf8(frame_header(body.len())) + body
}

/// Puts a body behind the header that gives its length.
pub fn frame_body(body: &[u8]) -> (bytes: Vec<u8>)
    ensures
        bytes@ == framed(body@),
{
    let header = "Content-Length: ".to_string().concat(
        decimal_text(body.len() as u64).as_str(),
    ).concat("\r\n\r\n");
    let mut out = slice_to_vec(header.as_str().as_bytes());
    out.extend_from_slice(body);
    out
}

proof fn lemma_header_end_at(bytes: Seq<u8>, end: int)
    requires
        0 <= end,
        end + 4 <= bytes.len(),
        bytes.subrange(end, end + 4) == header_delimiter(),
        forall|i: int| 0 <= i < end ==> bytes[i] != 13,
    ensures
        header_end(bytes) == Some(end),
    decreases end,
{
    if end == 0 {
        assert(bytes.take(4) =~= bytes.subrange(0, 4));
    } else {
        let rest = bytes.drop_first();
        assert(bytes.take(4)[0] == bytes[0]);
        assert(rest.subrange(end - 1, end + 3) =~= bytes.subrange(end, end + 4));
        lemma_header_end_at(rest, end - 1);
    }
}

proof fn lemma_header_end_stable(bytes: Seq<u8>, more: Seq<u8>)
    ensures
        header_end(bytes) is Some ==> header_end(bytes + more) == header_end(bytes),
    decreases bytes.len(),
{
    if bytes.len() >= 4 {
        assert((bytes + more).take(4) =~= bytes.take(4));
        assert((bytes + more).drop_first() =~= bytes.drop_first() + more);
        lemma_header_end_stable(bytes.drop_first(), more);
    }
}

proof fn lemma_single_line(text: Seq<char>)
    requires
        forall|i: int| 0 <= i < text.len() ==> text[i] != '\r',
    ensures
        line_end(text) == text.len(),
    decreases text.len(),
{
    if text.len() > 0 {
        lemma_single_line(text.drop_first());
    }
}

/// The header line that states a length.
pub open spec fn length_line(length: nat) -> Seq<char> {
    "Content-Length: "@ + decimal(length)
}

proof fn lemma_length_line(length: nat)
    requires
        length <= usize::MAX,
    ensures
        stated_length(length_line(length)) == Ok::<usize, ErrorView>(length as usize),
        is_ascii_chars(length_line(length)),
        forall|i: int| 0 <= i < length_line(length).len() ==> length_line(length)[i] != '\r',
{
    reveal_strlit("Content-Length: ");
    reveal_strlit("content-length");
    let line = length_line(length);
    let digits = decimal(length);
    lemma_decimal(length);
    assert forall|i: int| 0 <= i < line.len() implies line[i] != '\r' && '\0' <= line[i]
        <= '\u{7f}' by {
        if i >= 16 {
            assert(line[i] == digits[i - 16]);
        }
    }
    lemma_single_line(line);
    assert(line.take(line.len() as int) =~= line);
    lemma_position_at(line, 14);
    let name = line.take(14);
    assert(trim_start(name) == name);
    assert(trim_end(name) == name);
    assert(same_ignoring_case(name, "content-length"@));
    let value = line.skip(15);
    assert(value[0] == ' ');
    assert(value.drop_first() =~= digits);
    assert(is_digit(digits[0]) && is_digit(digits.last()));
    assert(trim_start(digits) == digits);
    assert(trim_start(value) == digits);
    assert(trim_end(digits) == digits);
}

proof fn lemma_framed(body: Seq<u8>, more: Seq<u8>)
    requires
        body.len() <= usize::MAX,
    ensures
        ({
            let end = length_line(body.len()).len() as int;
            &&& framed(body).len() == end + 4 + body.len()
            &&& header_end(framed(body) + more) == Some(end)
            &&& content_length((framed(body) + more).take(end)) == Ok::<usize, ErrorView>(
                body.len() as usize,
            )
            &&& (framed(body) + more).subrange(end + 4, end + 4 + body.len()) == body
            &&& (framed(body) + more).skip(end + 4 + body.len()) == more
        }),
{
    reveal_strlit("\r\n\r\n");
    let line = length_line(body.len());
    let header = frame_header(body.len());
    let end = line.len() as int;
    let bytes = framed(body) + more;
    lemma_length_line(body.len());
    assert(header =~= line + "\r\n\r\n"@);
    assert(is_ascii_chars(header)) by {
        assert forall|i: int| 0 <= i < header.len() implies '\0' <= #[trigger] header[i]
            <= '\u{7f}' by {
            if i < end {
                assert(header[i] == line[i]);
            }
        }
    }
    is_ascii_chars_encode_utf8(header);
    is_ascii_chars_encode_utf8(line);
    assert forall|i: int| 0 <= i < end implies bytes[i] != 13 by {
        assert(bytes[i] == encode_utf8(header)[i]);
        assert(header[i] == line[i]);
        assert('\0' <= line[i] <= '\u{7f}');
    }
    assert(bytes.subrange(end, end + 4) =~= header_delimiter()) by {
        assert(header[end] == '\r' && header[end + 1] == '\n' && header[end + 2] == '\r'
            && header[end + 3] == '\n');
    }
    lemma_header_end_at(bytes, end);
    assert(bytes.take(end) =~= encode_utf8(line)) by {
        assert forall|i: int| 0 <= i < end implies bytes.take(end)[i] == encode_utf8(line)[i] by {
            assert(header[i] == line[i]);
        }
    }
    encode_utf8_valid_utf8(line);
    encode_utf8_decode_utf8(line);
    assert(bytes.subrange(end + 4, end + 4 + body.len()) =~= body);
    assert(bytes.skip(end + 4 + body.len()) =~= more);
}

/// A framed body that reads back as `value` decodes to `value`, whatever follows it, and leaves
/// what follows in the buffer.
pub proof fn law_framed_decodes(value: JsonView, body: Seq<u8>, more: Seq<u8>)
    requires
        parsed_json(body) == Some(value),
        body.len() <= usize::MAX,
    ensures
        lsp_decoded(framed(body) + more) == (
            Ok::<Option<JsonView>, ErrorView>(Some(value)),
            more,
        ),
{
    lemma_framed(body, more);
}

/// The length that a framed body states never keeps it from being decoded.
pub proof fn law_framed_fits(body: Seq<u8>, more: Seq<u8>)
    requires
        framed(body).len() <= usize::MAX,
    ensures
        bounds_fit(framed(body) + more),
{
    lemma_framed(body, more);
}

/// As long as bytes of a message are missing, decoding gives nothing and takes nothing, wherever
/// the bytes were cut.
pub proof fn law_partial_frame_waits(body: Seq<u8>, count: int)
    requires
        body.len() <= usize::MAX,
        0 <= count < framed(body).len(),
    ensures
        lsp_decoded(framed(body).take(count)) == (
            Ok::<Option<JsonView>, ErrorView>(None),
            framed(body).take(count),
        ),
{
    let empty = Seq::<u8>::empty();
    let part = framed(body).take(count);
    let rest = framed(body).skip(count);
    lemma_framed(body, empty);
    assert(framed(body) + empty =~= framed(body));
    assert(part + rest =~= framed(body));
    lemma_header_end_stable(part, rest);
    lemma_header_end(part);
    if let Some(end) = header_end(part) {
        assert(part.take(end) =~= framed(body).take(end));
    }
}

/// Once decoding gives a message or an error, bytes that arrive later change neither, and stay
/// in the buffer behind what was there.
pub proof fn law_decoding_is_stable(bytes: Seq<u8>, more: Seq<u8>)
    requires
        !(lsp_decoded(bytes).0 matches Ok(None)),
    ensures
        lsp_decoded(bytes + more) == (lsp_decoded(bytes).0, lsp_decoded(bytes).1 + more),
{
    lemma_header_end(bytes);
    lemma_header_end_stable(bytes, more);
    if let Some(end) = header_end(bytes) {
        assert((bytes + more).take(end) =~= bytes.take(end));
        if let Ok(Some((_, start, total))) = frame_bounds(bytes) {
            assert((bytes + more).subrange(start, total) =~= bytes.subrange(start, total));
            assert((bytes + more).skip(total) =~= bytes.skip(total) + more);
        }
    }
}

/// A language server message.
#[derive(Debug, PartialEq, Eq)]
pub struct LspFrame {
    body: Value,
}

impl View for LspFrame {
    type V = JsonView;

    closed spec fn view(&self) -> JsonView {
        json_of(self.body)
    }
}

impl Clone for LspFrame {
    fn clone(&self) -> (copy: Self)
        ensures
            copy@ == self@,
    {
        LspFrame { body: self.body.clone() }
    }
}

pub open spec fn opt_frame(frame: Option<LspFrame>) -> Option<JsonView> {
    match frame {
        Some(frame) => Some(frame@),
        None => None,
    }
}

impl LspFrame {
    pub fn new(body: Value) -> (frame: Self)
        ensures
            frame@ == json_of(body),
    {
        LspFrame { body }
    }

    /// Reads a message from the text of its body.
    pub fn from_json_bytes(bytes: &[u8]) -> (frame: Result<Self, Error>)
        ensures
            match frame {
                Ok(frame) => parsed_json(bytes@) == Some(frame@),
                Err(error) => parsed_json(bytes@) is None && error@ == ErrorView::InvalidJson,
            },
    {
        match parse(bytes) {
            Ok(body) => Ok(Self::new(body)),
            Err(_) => Err(Error::InvalidJson),
        }
    }

    /// Writes the text of the body.
    pub fn to_json_bytes(&self) -> (text: Result<Vec<u8>, Error>)
        ensures
            text is Ok,
            text->Ok_0@ == json_text(self@),
            self@.exact_within(MAX_NESTING as nat) ==> parsed_json(json_text(self@)) == Some(self@),
    {
        match render(&self.body) {
            Ok(text) => Ok(text),
            Err(_) => Err(Error::InvalidJson),
        }
    }

    /// Writes the message as it goes over a byte stream.
    pub fn to_bytes(&self) -> (bytes: Result<Vec<u8>, Error>)
        ensures
            bytes is Ok,
            bytes->Ok_0@ == framed(json_text(self@)),
            bounds_fit(bytes->Ok_0@),
            self@.exact_within(MAX_NESTING as nat) ==> forall|more: Seq<u8>| #[trigger]
                lsp_decoded(bytes->Ok_0@ + more) == (
                    Ok::<Option<JsonView>, ErrorView>(Some(self@)),
                    more,
                ),
    {
        match self.to_json_bytes() {
            Ok(body) => {
                let bytes = frame_body(body.as_slice());
                proof {
                    assert(body@.len() == body.len());
                    assert(bytes@.len() == bytes.len());
                    law_framed_fits(body@, Seq::empty());
                    assert(bytes@ + Seq::<u8>::empty() =~= bytes@);
                    if self@.exact_within(MAX_NESTING as nat) {
                        assert forall|more: Seq<u8>| #[trigger] lsp_decoded(bytes@ + more) == (
                            Ok::<Option<JsonView>, ErrorView>(Some(self@)),
                            more,
                        ) by {
                            law_framed_decodes(self@, body@, more);
                        }
                    }
                }
                Ok(bytes)
            },
            Err(error) => Err(error),
        }
    }

    pub fn is_method(&self, target: &str) -> (is: bool)
        ensures
            is == self@.is_method(target@),
    {
        match self.method() {
            Some(method) => same_text(method, target),
            None => false,
        }
    }

    pub fn method(&self) -> (method: Option<&str>)
        ensures
            match method {
                Some(method) => self@.method() == Some(method@),
                None => self@.method() is None,
            },
    {
        match member(&self.body, "method") {
            Some(method) => method.as_str(),
            None => None,
        }
    }

    pub fn is_request_method(&self, target: &str) -> (is: bool)
        ensures
            is == self@.is_request_method(target@),
    {
        self.is_method(target) && member(&self.body, "id").is_some()
    }

    pub fn is_request(&self) -> (is: bool)
        ensures
            is == self@.is_request(),
    {
        member(&self.body, "method").is_some() && member(&self.body, "id").is_some()
    }

    pub fn is_response(&self) -> (is: bool)
        ensures
            is == self@.is_response(),
    {
        member(&self.body, "id").is_some() && (member(&self.body, "result").is_some() || member(
            &self.body,
            "error",
        ).is_some())
    }

    pub fn is_success_response(&self) -> (is: bool)
        ensures
            is == self@.is_success_response(),
    {
        member(&self.body, "id").is_some() && member(&self.body, "result").is_some()
    }

    pub fn id(&self) -> (id: Option<JsonRpcId>)
        ensures
            opt_id(id) == self@.id(),
    {
        match member(&self.body, "id") {
            Some(id) => JsonRpcId::from_value(id),
            None => None,
        }
    }

    pub fn set_id(&mut self, id: JsonRpcId)
        ensures
            final(self)@ == old(self)@.with_id(id@),
    {
        put_member(&mut self.body, "id".to_string(), id.into_value());
    }

    pub fn cancel_request_id(&self) -> (id: Option<JsonRpcId>)
        ensures
            opt_id(id) == self@.cancel_request_id(),
    {
        if !self.is_method("$/cancelRequest") {
            return None;
        }
        match member(&self.body, "params") {
            Some(params) => match member(params, "id") {
                Some(id) => JsonRpcId::from_value(id),
                None => None,
            },
            None => None,
        }
    }

    pub fn set_cancel_request_id(&mut self, id: JsonRpcId)
        ensures
            final(self)@ == old(self)@.with_cancel_request_id(id@),
    {
        let found = match member(&self.body, "params") {
            Some(params) => Some(params.clone()),
            None => None,
        };
        if let Some(mut params) = found {
            put_member(&mut params, "id".to_string(), id.into_value());
            put_member(&mut self.body, "params".to_string(), params);
        }
    }

    /// The workspace that an initialize message asks for.
    pub fn workspace_key(&self) -> (key: Option<String>)
        ensures
            match key {
                Some(key) => self@.workspace_key() == Some(key@),
                None => self@.workspace_key() is None,
            },
    {
        if !self.is_method("initialize") {
            return None;
        }
        let params = match member(&self.body, "params") {
            Some(params) => params,
            None => return None,
        };
        if let Some(uri) = first_folder(params) {
            return Some(uri.to_string());
        }
        match filled_text(params, "rootUri") {
            Some(uri) => Some(uri.to_string()),
            None => match filled_text(params, "rootPath") {
                Some(path) => Some(path.to_string()),
                None => None,
            },
        }
    }

    /// The response to a shutdown request whose id is a number or a text.
    pub fn shutdown_response(&self) -> (response: Option<Self>)
        ensures
            opt_frame(response) == self@.shutdown_response(),
    {
        if !self.is_request_method("shutdown") {
            return None;
        }
        match self.id() {
            Some(id) => Some(Self::new(empty_response(id.into_value()))),
            None => None,
        }
    }

    pub fn as_json(&self) -> (body: &Value)
        ensures
            json_of(*body) == self@,
    {
        &self.body
    }
}

fn first_folder(params: &Value) -> (uri: Option<&str>)
    ensures
        match uri {
            Some(uri) => json_of(*params).first_folder() == Some(uri@),
            None => json_of(*params).first_folder() is None,
        },
{
    let folders = match member(params, "workspaceFolders") {
        Some(value) => match value.as_array() {
            Some(folders) => folders,
            None => return None,
        },
        None => return None,
    };
    if folders.len() == 0 {
        return None;
    }
    match member(&folders[0], "uri") {
        Some(uri) => uri.as_str(),
        None => None,
    }
}

fn filled_text<'a>(value: &'a Value, key: &str) -> (text: Option<&'a str>)
    ensures
        match text {
            Some(text) => json_of(*value).filled_text(key@) == Some(text@),
            None => json_of(*value).filled_text(key@) is None,
        },
{
    match member(value, key) {
        Some(found) => match found.as_str() {
            Some(text) => if !text.is_empty() {
                Some(text)
            } else {
                None
            },
            None => None,
        },
        None => None,
    }
}

/// What sort of message an object is depends on which members it has: a request has a method and
/// an id, a response has an id and a result or an error.
pub proof fn law_members_tell_the_sort(members: Map<Seq<char>, JsonView>, name: Seq<char>)
    ensures
        ({
            let message = JsonView::Object(members);
            let has_id = members.contains_key("id"@);
            let has_result = members.contains_key("result"@);
            let named = members.contains_key("method"@) && members["method"@] == JsonView::Text(
                name,
            );
            &&& message.is_request() <==> members.contains_key("method"@) && has_id
            &&& message.is_success_response() <==> has_id && has_result
            &&& message.is_response() <==> has_id && (has_result || members.contains_key("error"@))
            &&& message.method() == Some(name) <==> named
            &&& message.is_method(name) <==> named
            &&& message.is_request_method(name) <==> named && has_id
        }),
{
}

/// A value that is no object is no message of any sort.
pub proof fn law_only_objects_are_messages(value: JsonView, name: Seq<char>)
    requires
        !(value is Object),
    ensures
        !value.is_request(),
        !value.is_response(),
        !value.is_success_response(),
        !value.is_method(name),
        !value.is_request_method(name),
        value.id() is None,
        value.cancel_request_id() is None,
        value.workspace_key() is None,
        value.shutdown_response() is None,
{
}

/// An id is an integer or a text, as it stands in the message.
pub proof fn law_id_is_read_as_it_stands(
    members: Map<Seq<char>, JsonView>,
    number: i64,
    text: Seq<char>,
)
    ensures
        JsonView::Object(members).id() == Some(IdView::Number(number)) <==> members.contains_key(
            "id"@,
        ) && members["id"@] == JsonView::Number(NumberView::Integer(number as int)),
        JsonView::Object(members).id() == Some(IdView::Text(text)) <==> members.contains_key("id"@)
            && members["id"@] == JsonView::Text(text),
{
}

/// To set the id of a message sets the member `id` and no other; a value that is no object stays.
pub proof fn law_setting_the_id_changes_nothing_else(
    members: Map<Seq<char>, JsonView>,
    other: JsonView,
    id: IdView,
)
    requires
        !(other is Object),
    ensures
        JsonView::Object(members).with_id(id) == JsonView::Object(
            members.insert(
                "id"@,
                match id {
                    IdView::Number(number) => JsonView::Number(NumberView::Integer(number as int)),
                    IdView::Text(text) => JsonView::Text(text),
                },
            ),
        ),
        other.with_id(id) == other,
        JsonView::Object(members).with_id(id).id() == Some(id),
{
}

/// What a cancel notification cancels is the id among its parameters.
pub proof fn law_cancel_id_is_among_the_parameters(
    members: Map<Seq<char>, JsonView>,
    params: Map<Seq<char>, JsonView>,
    id: IdView,
)
    requires
        members.contains_key("params"@),
        members["params"@] == JsonView::Object(params),
    ensures
        JsonView::Object(members).cancel_request_id() == Some(id) <==> members.contains_key(
            "method"@,
        ) && members["method"@] == JsonView::Text("$/cancelRequest"@) && params.contains_key("id"@)
            && params["id"@] == (match id {
            IdView::Number(number) => JsonView::Number(NumberView::Integer(number as int)),
            IdView::Text(text) => JsonView::Text(text),
        }),
        JsonView::Object(members).with_cancel_request_id(id) == JsonView::Object(
            members.insert(
                "params"@,
                JsonView::Object(
                    params.insert(
                        "id"@,
                        match id {
                            IdView::Number(number) => JsonView::Number(
                                NumberView::Integer(number as int),
                            ),
                            IdView::Text(text) => JsonView::Text(text),
                        },
                    ),
                ),
            ),
        ),
{
}

/// Whether the parameters of an initialize message name a first workspace folder by its address.
pub open spec fn names_folder(params: Map<Seq<char>, JsonView>, uri: Seq<char>) -> bool {
    &&& params.contains_key("workspaceFolders"@)
    &&& params["workspaceFolders"@] matches JsonView::Array(folders)
    &&& folders.len() > 0
    &&& folders[0] matches JsonView::Object(folder)
    &&& folder.contains_key("uri"@)
    &&& folder["uri"@] == JsonView::Text(uri)
}

/// Whether a parameter is a text that is not empty.
pub open spec fn names_root(
    params: Map<Seq<char>, JsonView>,
    key: Seq<char>,
    root: Seq<char>,
) -> bool {
    params.contains_key(key) && params[key] == JsonView::Text(root) && root.len() > 0
}

/// The workspace of an initialize message is the address of its first folder, whatever else stands
/// in the message; without one, the root address that is not empty; without that, the root path
/// that is not empty; else there is none.
pub proof fn law_workspace_is_what_initialize_names(
    members: Map<Seq<char>, JsonView>,
    params: Map<Seq<char>, JsonView>,
    key: Seq<char>,
)
    requires
        members.contains_key("method"@),
        members["method"@] == JsonView::Text("initialize"@),
        members.contains_key("params"@),
        members["params"@] == JsonView::Object(params),
    ensures
        names_folder(params, key) ==> JsonView::Object(members).workspace_key() == Some(key),
        (forall|uri: Seq<char>| !names_folder(params, uri)) && names_root(params, "rootUri"@, key)
            ==> JsonView::Object(members).workspace_key() == Some(key),
        (forall|uri: Seq<char>| !names_folder(params, uri)) && (forall|root: Seq<char>|
            !names_root(params, "rootUri"@, root)) && names_root(params, "rootPath"@, key)
            ==> JsonView::Object(members).workspace_key() == Some(key),
        (forall|uri: Seq<char>| !names_folder(params, uri)) && (forall|root: Seq<char>|
            !names_root(params, "rootUri"@, root) && !names_root(params, "rootPath"@, root))
            ==> JsonView::Object(members).workspace_key() is None,
{
    let view = JsonView::Object(params);
    if let Some(uri) = view.first_folder() {
        assert(names_folder(params, uri));
    }
    if let Some(root) = view.filled_text("rootUri"@) {
        assert(names_root(params, "rootUri"@, root));
    }
    if let Some(root) = view.filled_text("rootPath"@) {
        assert(names_root(params, "rootPath"@, root));
    }
}

/// Only an initialize message with parameters names a workspace.
pub proof fn law_other_messages_name_no_workspace(members: Map<Seq<char>, JsonView>)
    requires
        !(members.contains_key("method"@) && members["method"@] == JsonView::Text("initialize"@)
            && members.contains_key("params"@) && members["params"@] is Object),
    ensures
        JsonView::Object(members).workspace_key() is None,
{
}

/// The response without a result has the version, the id that it is given, a null result, and
/// nothing else.
pub proof fn law_empty_response_has_three_members(id: JsonView, key: Seq<char>)
    ensures
        JsonView::empty_response(id) matches JsonView::Object(members) && (members.contains_key(key)
            <==> key == "jsonrpc"@ || key == "id"@ || key == "result"@) && members["jsonrpc"@]
            == JsonView::Text("2.0"@) && members["id"@] == id && members["result"@]
            == JsonView::Null,
{
    reveal_strlit("jsonrpc");
    reveal_strlit("id");
    reveal_strlit("result");
    assert("jsonrpc"@.len() == 7 && "id"@.len() == 2 && "result"@.len() == 6);
}

/// A shutdown request, and no other message, has a response without a result under its id.
pub proof fn law_shutdown_response_is_for_shutdown(members: Map<Seq<char>, JsonView>, id: JsonView)
    ensures
        JsonView::Object(members).shutdown_response() == Some(JsonView::empty_response(id)) <==>
            members.contains_key("method"@) && members["method"@] == JsonView::Text("shutdown"@)
            && members.contains_key("id"@) && members["id"@] == id && (match id {
            JsonView::Number(NumberView::Integer(number)) => i64::MIN <= number <= i64::MAX,
            JsonView::Text(_) => true,
            _ => false,
        }),
{
    law_empty_response_has_three_members(id, "id"@);
    if let Some(own) = JsonView::Object(members).id() {
        law_empty_response_has_three_members(own.json(), "id"@);
    }
}

/// What goes over a byte stream is a line with the length of the body in decimal notation, an empty
/// line, and the body.
pub proof fn law_framed_layout(body: Seq<u8>)
    ensures
        framed(body) == encode_utf8("Content-Length: "@ + decimal(body.len()) + "\r\n\r\n"@) + body,
        framed(body).len() > body.len(),
        framed(body).skip(framed(body).len() - body.len()) == body,
{
    let header = encode_utf8(frame_header(body.len()));
    assert(framed(body).skip(header.len() as int) =~= body);
    assert(header.len() > 0) by {
        reveal_strlit("Content-Length: ");
        assert("Content-Length: "@.len() == 16);
        encode_utf8_decode_utf8(frame_header(body.len()));
        encode_utf8_decode_utf8(Seq::empty());
        if header.len() == 0 {
            assert(header =~= encode_utf8(Seq::empty()));
        }
    }
}

/// Whether an empty line stands at a place.
pub open spec fn empty_line_at(bytes: Seq<u8>, at: int) -> bool {
    &&& 0 <= at && at + 4 <= bytes.len()
    &&& bytes[at] == 13 && bytes[at + 1] == 10 && bytes[at + 2] == 13 && bytes[at + 3] == 10
}

/// A decoder gives a body of exactly the length that the header states, from right behind the
/// first empty line, and leaves exactly what follows the body.
pub proof fn law_decoder_cuts_by_the_header(
    headers: Seq<u8>,
    head: Seq<u8>,
    body: Seq<u8>,
    more: Seq<u8>,
    length: usize,
)
    requires
        content_length(headers) == Ok::<usize, ErrorView>(length),
        body.len() == length,
        head == headers + seq![13u8, 10u8, 13u8, 10u8],
        forall|i: int| 0 <= i < headers.len() ==> !#[trigger] empty_line_at(head, i),
    ensures
        ({
            let bytes = head + body + more;
            let (decoded, rest) = lsp_decoded(bytes);
            &&& rest == more
            &&& parsed_json(body) matches Some(value) ==> decoded == Ok::<
                Option<JsonView>,
                ErrorView,
            >(Some(value))
            &&& parsed_json(body) is None ==> decoded == Err::<Option<JsonView>, ErrorView>(
                ErrorView::InvalidJson,
            )
        }),
{
    let bytes = head + body + more;
    let end = headers.len() as int;
    assert(empty_line_at(bytes, end));
    assert forall|i: int| 0 <= i < end implies !#[trigger] empty_line_at(bytes, i) by {
        assert(!empty_line_at(head, i));
        assert(bytes[i] == head[i] && bytes[i + 1] == head[i + 1] && bytes[i + 2] == head[i + 2]
            && bytes[i + 3] == head[i + 3]);
    }
    lemma_header_end_first(bytes, end);
    assert(bytes.take(end) =~= headers);
    assert(bytes.subrange(end + 4, end + 4 + length) =~= body);
    assert(bytes.skip(end + 4 + length) =~= more);
}

proof fn lemma_header_end_first(bytes: Seq<u8>, end: int)
    requires
        empty_line_at(bytes, end),
        forall|i: int| 0 <= i < end ==> !#[trigger] empty_line_at(bytes, i),
    ensures
        header_end(bytes) == Some(end),
    decreases end,
{
    let start = bytes.take(4);
    assert(start[0] == bytes[0] && start[1] == bytes[1] && start[2] == bytes[2] && start[3]
        == bytes[3]);
    if end == 0 {
        assert(start =~= header_delimiter());
    } else {
        let rest = bytes.drop_first();
        assert(!empty_line_at(bytes, 0));
        assert forall|i: int| 0 <= i < end - 1 implies !#[trigger] empty_line_at(rest, i) by {
            assert(!empty_line_at(bytes, i + 1));
        }
        lemma_header_end_first(rest, end - 1);
    }
}

/// Without an empty line nothing is decoded, and with a header that gives no length nothing is
/// taken.
pub proof fn law_bad_headers_take_nothing(bytes: Seq<u8>)
    requires
        header_end(bytes) is None || content_length(bytes.take(header_end(bytes)->0)) is Err,
    ensures
        lsp_decoded(bytes).1 == bytes,
        header_end(bytes) is None ==> lsp_decoded(bytes).0 == Ok::<Option<JsonView>, ErrorView>(
            None,
        ),
        header_end(bytes) matches Some(end) ==> lsp_decoded(bytes).0 == Err::<
            Option<JsonView>,
            ErrorView,
        >(content_length(bytes.take(end))->Err_0),
{
}

/// The empty line that ends the header is the first, and where there is none there is no end.
pub proof fn law_header_ends_at_the_first_empty_line(bytes: Seq<u8>, at: int)
    requires
        0 <= at,
        at + 4 <= bytes.len(),
        bytes[at] == 13,
        bytes[at + 1] == 10,
        bytes[at + 2] == 13,
        bytes[at + 3] == 10,
    ensures
        header_end(bytes) matches Some(end) && 0 <= end <= at && bytes[end] == 13 && bytes[end + 1]
            == 10 && bytes[end + 2] == 13 && bytes[end + 3] == 10,
    decreases bytes.len(),
{
    assert(bytes.take(4)[0] == bytes[0] && bytes.take(4)[1] == bytes[1] && bytes.take(4)[2]
        == bytes[2] && bytes.take(4)[3] == bytes[3]);
    if bytes.take(4) != header_delimiter() {
        let rest = bytes.drop_first();
        if at == 0 {
            assert(bytes.take(4) =~= header_delimiter());
        }
        law_header_ends_at_the_first_empty_line(rest, at - 1);
    }
}

/// A header line that has no colon, and one whose name is another, is passed over; a line whose
/// name is `Content-Length` in whatever case gives the length.
pub proof fn law_header_lines_are_read_in_turn(line: Seq<char>, rest: Seq<char>)
    requires
        forall|i: int| 0 <= i < line.len() ==> line[i] != '\r',
    ensures
        ({
            let text = line + "\r\n"@ + rest;
            &&& (forall|i: int| 0 <= i < line.len() ==> line[i] != ':') ==> stated_length(text)
                == stated_length(rest)
            &&& length_field(line) is None ==> stated_length(text) == stated_length(rest)
            &&& length_field(line) matches Some(value) ==> stated_length(text) == match parse_usize(
                trim(value),
            ) {
                Some(length) => Ok::<usize, ErrorView>(length),
                None => Err(ErrorView::InvalidContentLength),
            }
        }),
{
    reveal_strlit("\r\n");
    let text = line + "\r\n"@ + rest;
    lemma_line_then(line, rest);
    assert(text.take(line.len() as int) =~= line);
    assert(text.skip((line.len() + 2) as int) =~= rest);
    if forall|i: int| 0 <= i < line.len() ==> line[i] != ':' {
        lemma_position(line, ':');
    }
}

proof fn lemma_line_then(line: Seq<char>, rest: Seq<char>)
    requires
        forall|i: int| 0 <= i < line.len() ==> line[i] != '\r',
    ensures
        line_end(line + "\r\n"@ + rest) == line.len(),
    decreases line.len(),
{
    reveal_strlit("\r\n");
    let text = line + "\r\n"@ + rest;
    if line.len() == 0 {
        assert(text[0] == '\r' && text[1] == '\n');
    } else {
        assert(text[0] == line[0]);
        assert(text.drop_first() =~= line.drop_first() + "\r\n"@ + rest);
        lemma_line_then(line.drop_first(), rest);
    }
}

/// The name of a header field is what stands before the first colon, without white space around it
/// and whatever the case of its letters; its value is all that follows.
pub proof fn law_length_field_is_named(name: Seq<char>, value: Seq<char>)
    requires
        name.len() == 14,
        forall|i: int|
            0 <= i < 14 ==> (#[trigger] name[i] == "content-length"@[i] || (name[i] as u8 + 32
                == "content-length"@[i] as u8 && 'A' <= name[i] <= 'Z')),
    ensures
        length_field(name + ":"@ + value) == Some(value),
{
    reveal_strlit("content-length");
    reveal_strlit(":");
    let line = name + ":"@ + value;
    assert(line[14] == ':');
    assert forall|i: int| 0 <= i < 14 implies line[i] != ':' by {
        assert(line[i] == name[i]);
        assert("content-length"@[i] != ':');
    }
    lemma_position_at(line, 14);
    assert(line.take(14) =~= name);
    assert(line.skip(15) =~= value);
    assert(name[0] == 'c' || name[0] == 'C') by {
        assert("content-length"@[0] == 'c');
    }
    assert(name[13] == 'h' || name[13] == 'H') by {
        assert("content-length"@[13] == 'h');
    }
    assert(trim_start(name) == name);
    assert(trim_end(name) == name);
    assert forall|i: int| 0 <= i < 14 implies ascii_lower(#[trigger] name[i]) == ascii_lower(
        "content-length"@[i],
    ) by {
        assert('-' <= "content-length"@[i] <= 'z');
        assert("content-length"@[i] == '-' || 'a' <= "content-length"@[i] <= 'z');
    }
}

/// A header that is no text is told as such, with what is wrong with its bytes; one that is text is
/// read as that text.
pub proof fn law_header_is_read_as_text(headers: Seq<u8>, text: Seq<char>)
    ensures
        !valid_utf8(headers) ==> content_length(headers) == Err::<usize, ErrorView>(
            ErrorView::InvalidHeaderUtf8(utf8_complaint(headers)),
        ),
        content_length(encode_utf8(text)) == stated_length(text),
{
    encode_utf8_valid_utf8(text);
    encode_utf8_decode_utf8(text);
}

} // verus!
