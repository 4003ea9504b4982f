//! The JSON-RPC client: request ids, request lines, and reply envelopes.
//!
//! A request is one line, `{"id":N,"method":"get_status"}` or
//! `{"id":N,"method":"export","params":{"statuses":[{"name":..,"value":..},..]}}`.
//! A reply is one line that holds a JSON object with an `id` and a `response`,
//! which is either a result, `{"display":..,"value":..}`, or an error,
//! `{"code":..,"message":..}`. A line that is anything else is skipped.

use crate::json::{
    as_str, as_u64, json_member, json_parse, json_str, json_string, json_text,
    json_u64, member, parse_value, string_value, value_text,
};
use crate::text::{
    decimal_digits, lemma_decimal_one_line, lemma_one_line_concat, one_line, push_decimal,
};
use crate::transport::{texts, Channel, Sender, TransportError};
use serde_json::Value;
use vstd::prelude::*;
use vstd::string::StringExecFns;

verus! {

/// One named value of an export.
#[derive(Debug, Clone, PartialEq)]
pub struct ExportStatus {
    pub name: String,
    pub value: Value,
}

/// An `ExportStatus` with its name as text.
pub struct ExportStatusView {
    pub name: Seq<char>,
    pub value: Value,
}

impl View for ExportStatus {
    type V = ExportStatusView;

    open spec fn view(&self) -> ExportStatusView {
        ExportStatusView { name: self.name@, value: self.value }
    }
}

/// The views of a run of export entries.
pub open spec fn export_views(statuses: Seq<ExportStatus>) -> Seq<ExportStatusView> {
    statuses.map_values(|status: ExportStatus| status@)
}

/// The calls that the peer understands.
#[derive(Debug, Clone, PartialEq)]
pub enum Method {
    GetStatus,
    Export(Vec<ExportStatus>),
}

/// A `Method` with its entries as views.
pub enum MethodView {
    GetStatus,
    Export(Seq<ExportStatusView>),
}

impl View for Method {
    type V = MethodView;

    open spec fn view(&self) -> MethodView {
        match self {
            Method::GetStatus => MethodView::GetStatus,
            Method::Export(statuses) => MethodView::Export(export_views(statuses@)),
        }
    }
}

/// The result that answers a status request.
#[derive(Debug, Clone, PartialEq)]
pub struct ImportStatus {
    pub display: String,
    pub value: Value,
}

/// An `ImportStatus` with its display string as text.
pub struct ImportStatusView {
    pub display: Seq<char>,
    pub value: Value,
}

impl View for ImportStatus {
    type V = ImportStatusView;

    open spec fn view(&self) -> ImportStatusView {
        ImportStatusView { display: self.display@, value: self.value }
    }
}

/// The results that a reply can carry.
#[derive(Debug, Clone, PartialEq)]
pub enum Response {
    ImportStatus(ImportStatus),
}

/// What a reply says: a result, or an error with its code.
#[derive(Debug, Clone, PartialEq)]
pub enum ResponseResult {
    Response(Response),
    Error { code: usize, message: String },
}

/// A `ResponseResult` with its strings as text.
pub enum ResponseResultView {
    Response(ImportStatusView),
    Error { code: usize, message: Seq<char> },
}

impl View for ResponseResult {
    type V = ResponseResultView;

    open spec fn view(&self) -> ResponseResultView {
        match self {
            ResponseResult::Response(Response::ImportStatus(status)) => ResponseResultView::Response(
                status@,
            ),
            ResponseResult::Error { code, message } => ResponseResultView::Error {
                code: *code,
                message: message@,
            },
        }
    }
}

/// A reply, tagged with the id of the request that it answers.
#[derive(Debug, Clone, PartialEq)]
pub struct Receive {
    pub id: u64,
    pub response: ResponseResult,
}

/// A `Receive` with its strings as text.
pub struct ReceiveView {
    pub id: u64,
    pub response: ResponseResultView,
}

impl View for Receive {
    type V = ReceiveView;

    open spec fn view(&self) -> ReceiveView {
        ReceiveView { id: self.id, response: self.response@ }
    }
}

/// The view of a reply that may be there.
pub open spec fn reply_view(reply: Option<Receive>) -> Option<ReceiveView> {
    match reply {
        Some(reply) => Some(reply@),
        None => None,
    }
}

/// The view of a text that may be there.
pub open spec fn text_view(text: Option<String>) -> Option<Seq<char>> {
    match text {
        Some(text) => Some(text@),
        None => None,
    }
}

/// The views of a run of replies.
pub open spec fn receive_views(replies: Seq<Receive>) -> Seq<ReceiveView> {
    replies.map_values(|reply: Receive| reply@)
}

/// Why a request was not sent.
#[derive(Debug)]
pub enum SendError {
    /// A value of the request could not be written as JSON.
    Serialize(serde_json::Error),
    /// The line was ready and the transport refused it.
    Transport(TransportError),
}

/// The line of a request, from its parts: the id in decimal, the method's
/// tag as it stands, and the parameters as JSON text where there are any.
pub open spec fn request_frame(id: u64, method: Seq<char>, params: Option<Seq<char>>) -> Seq<
    char,
> {
    let head = "{\"id\":"@ + decimal_digits(id as nat) + ",\"method\":\""@ + method;
    match params {
        Some(p) => head + "\",\"params\":"@ + p + "}"@,
        None => head + "\"}"@,
    }
}

/// One entry of an export, from the JSON texts of its name and its value.
pub open spec fn entry_frame(name: Seq<char>, value: Seq<char>) -> Seq<char> {
    "{\"name\":"@ + name + ",\"value\":"@ + value + "}"@
}

/// Texts in a row, with a comma between each two.
pub open spec fn joined(parts: Seq<Seq<char>>) -> Seq<char>
    decreases parts.len(),
{
    if parts.len() == 0 {
        Seq::empty()
    } else if parts.len() == 1 {
        parts[0]
    } else {
        joined(parts.drop_last()) + ","@ + parts.last()
    }
}

/// The parameters of an export, from the texts of its entries.
pub open spec fn statuses_frame(entries: Seq<Seq<char>>) -> Seq<char> {
    "{\"statuses\":["@ + joined(entries) + "]}"@
}

/// The text of one export entry, if its name and its value can be written.
pub open spec fn entry_text(entry: ExportStatusView) -> Option<Seq<char>> {
    match (json_text(json_string(entry.name)), json_text(entry.value)) {
        (Some(name), Some(value)) => Some(entry_frame(name, value)),
        _ => None,
    }
}

/// The texts of a run of export entries, if every one of them can be written.
pub open spec fn entry_texts(entries: Seq<ExportStatusView>) -> Option<Seq<Seq<char>>>
    decreases entries.len(),
{
    if entries.len() == 0 {
        Some(Seq::empty())
    } else {
        match (entry_texts(entries.drop_last()), entry_text(entries.last())) {
            (Some(before), Some(last)) => Some(before.push(last)),
            _ => None,
        }
    }
}

/// The line that carries a method under an id, if the method's values can be
/// written as JSON.
pub open spec fn request_line(id: u64, method: MethodView) -> Option<Seq<char>> {
    match method {
        MethodView::GetStatus => Some(request_frame(id, "get_status"@, None)),
        MethodView::Export(entries) => match entry_texts(entries) {
            Some(written) => Some(request_frame(id, "export"@, Some(statuses_frame(written)))),
            None => None,
        },
    }
}

/// The reply that the parts of an envelope make up. It needs an id. With a
/// display string and a value it is a result; failing that, with a code that
/// fits and a message it is an error; failing that, it is no reply.
pub open spec fn envelope_of(
    id: Option<u64>,
    display: Option<Seq<char>>,
    value: Option<Value>,
    code: Option<u64>,
    message: Option<Seq<char>>,
) -> Option<ReceiveView> {
    if id is None {
        None
    } else if display is Some && value is Some {
        Some(
            ReceiveView {
                id: id->0,
                response: ResponseResultView::Response(
                    ImportStatusView { display: display->0, value: value->0 },
                ),
            },
        )
    } else if code is Some && code->0 <= usize::MAX && message is Some {
        Some(
            ReceiveView {
                id: id->0,
                response: ResponseResultView::Error {
                    code: code->0 as usize,
                    message: message->0,
                },
            },
        )
    } else {
        None
    }
}

/// The number under a key of a JSON object.
pub open spec fn u64_member(value: Value, key: Seq<char>) -> Option<u64> {
    match json_member(value, key) {
        Some(m) => json_u64(m),
        None => None,
    }
}

/// The text under a key of a JSON object.
pub open spec fn str_member(value: Value, key: Seq<char>) -> Option<Seq<char>> {
    match json_member(value, key) {
        Some(m) => json_str(m),
        None => None,
    }
}

/// The reply that a JSON value is, if it is one.
pub open spec fn decoded(value: Value) -> Option<ReceiveView> {
    match json_member(value, "response"@) {
        Some(response) => envelope_of(
            u64_member(value, "id"@),
            str_member(response, "display"@),
            json_member(response, "value"@),
            u64_member(response, "code"@),
            str_member(response, "message"@),
        ),
        None => None,
    }
}

/// The reply that a line carries, if it carries one.
pub open spec fn received(line: Seq<char>) -> Option<ReceiveView> {
    match json_parse(line) {
        Some(value) => decoded(value),
        None => None,
    }
}

/// The replies that a run of lines carries, in the order of the lines; a
/// line that carries none is passed over.
pub open spec fn received_all(lines: Seq<Seq<char>>) -> Seq<ReceiveView>
    decreases lines.len(),
{
    if lines.len() == 0 {
        Seq::empty()
    } else {
        let before = received_all(lines.drop_last());
        match received(lines.last()) {
            Some(reply) => before.push(reply),
            None => before,
        }
    }
}

/// How the outcome of a send shows on the channel. A request without a line
/// fails for that and reaches no channel. One with a line goes out exactly
/// where the channel takes it: the channel then has taken that line after
/// all it had, and has taken what it had in every other case. A closed
/// channel takes nothing, and a channel that is sure to take a line does.
pub open spec fn sends<T>(
    r: Result<T, SendError>,
    before: Seq<Seq<char>>,
    after: Seq<Seq<char>>,
    open: bool,
    unfailing: bool,
    line: Option<Seq<char>>,
) -> bool {
    match r {
        Ok(_) => line is Some && open && after == before.push(line->0),
        Err(SendError::Serialize(_)) => line is None && after == before,
        Err(SendError::Transport(e)) => line is Some && !unfailing && after == before && (!open
            ==> e == TransportError::Closed),
    }
}

/// Every text of a run is free of newlines.
pub open spec fn all_one_line(texts: Seq<Seq<char>>) -> bool {
    forall|i: int| 0 <= i < texts.len() ==> one_line(#[trigger] texts[i])
}

/// A request whose method and parameters are free of newlines is one line.
pub proof fn lemma_request_frame_one_line(id: u64, method: Seq<char>, params: Option<Seq<char>>)
    requires
        one_line(method),
        params matches Some(text) ==> one_line(text),
    ensures
        one_line(request_frame(id, method, params)),
{
    reveal_strlit("{\"id\":");
    reveal_strlit(",\"method\":\"");
    reveal_strlit("\",\"params\":");
    reveal_strlit("}");
    reveal_strlit("\"}");
    lemma_decimal_one_line(id as nat);
    let opening = "{\"id\":"@ + decimal_digits(id as nat);
    lemma_one_line_concat("{\"id\":"@, decimal_digits(id as nat));
    lemma_one_line_concat(opening, ",\"method\":\""@);
    let head = opening + ",\"method\":\""@ + method;
    lemma_one_line_concat(opening + ",\"method\":\""@, method);
    match params {
        Some(text) => {
            lemma_one_line_concat(head, "\",\"params\":"@);
            lemma_one_line_concat(head + "\",\"params\":"@, text);
            lemma_one_line_concat(head + "\",\"params\":"@ + text, "}"@);
        },
        None => {
            lemma_one_line_concat(head, "\"}"@);
        },
    }
}

/// An entry whose name and value are free of newlines is free of newlines.
pub proof fn lemma_entry_frame_one_line(name: Seq<char>, value: Seq<char>)
    requires
        one_line(name),
        one_line(value),
    ensures
        one_line(entry_frame(name, value)),
{
    reveal_strlit("{\"name\":");
    reveal_strlit(",\"value\":");
    reveal_strlit("}");
    lemma_one_line_concat("{\"name\":"@, name);
    lemma_one_line_concat("{\"name\":"@ + name, ",\"value\":"@);
    lemma_one_line_concat("{\"name\":"@ + name + ",\"value\":"@, value);
    lemma_one_line_concat("{\"name\":"@ + name + ",\"value\":"@ + value, "}"@);
}

/// Texts free of newlines, joined by commas, are free of newlines.
pub proof fn lemma_joined_one_line(parts: Seq<Seq<char>>)
    requires
        all_one_line(parts),
    ensures
        one_line(joined(parts)),
    decreases parts.len(),
{
    if parts.len() == 1 {
        assert(one_line(parts[0]));
    } else if parts.len() > 1 {
        reveal_strlit(",");
        assert forall|i: int| 0 <= i < parts.drop_last().len() implies one_line(
            #[trigger] parts.drop_last()[i],
        ) by {
            assert(parts.drop_last()[i] == parts[i]);
        }
        lemma_joined_one_line(parts.drop_last());
        assert(one_line(parts[parts.len() - 1]));
        lemma_one_line_concat(joined(parts.drop_last()), ","@);
        lemma_one_line_concat(joined(parts.drop_last()) + ","@, parts.last());
    }
}

/// The parameters of an export whose entries are free of newlines are free
/// of newlines.
pub proof fn lemma_statuses_frame_one_line(entries: Seq<Seq<char>>)
    requires
        all_one_line(entries),
    ensures
        one_line(statuses_frame(entries)),
{
    reveal_strlit("{\"statuses\":[");
    reveal_strlit("]}");
    lemma_joined_one_line(entries);
    lemma_one_line_concat("{\"statuses\":["@, joined(entries));
    lemma_one_line_concat("{\"statuses\":["@ + joined(entries), "]}"@);
}

/// The request for a status is one line, whatever its id.
pub proof fn lemma_get_status_is_one_line(id: u64)
    ensures
        request_line(id, MethodView::GetStatus) is Some,
        one_line(request_line(id, MethodView::GetStatus)->0),
{
    reveal_strlit("get_status");
    lemma_request_frame_one_line(id, "get_status"@, None);
}

/// Writes the line of a request from its parts.
pub fn frame_request(id: u64, method: &str, params: Option<&str>) -> (line: String)
    ensures
        line@ == request_frame(
            id,
            method@,
            match params {
                Some(text) => Some(text@),
                None => None,
            },
        ),
{
    let mut line = String::from_str("{\"id\":");
    push_decimal(&mut line, id);
    line.append(",\"method\":\"");
    line.append(method);
    match params {
        Some(p) => {
            line.append("\",\"params\":");
            line.append(p);
            line.append("}");
        },
        None => {
            line.append("\"}");
        },
    }
    line
}

/// Writes one entry of an export from the JSON texts of its name and value.
pub fn frame_entry(name: &str, value: &str) -> (text: String)
    ensures
        text@ == entry_frame(name@, value@),
{
    let mut text = String::from_str("{\"name\":");
    text.append(name);
    text.append(",\"value\":");
    text.append(value);
    text.append("}");
    text
}

/// Writes the parameters of an export from the texts of its entries.
pub fn frame_statuses(entries: &Vec<String>) -> (text: String)
    ensures
        text@ == statuses_frame(texts(entries@)),
{
    let ghost parts = texts(entries@);
    let mut list = String::new();
    let mut i: usize = 0;
    while i < entries.len()
        invariant
            i <= entries.len(),
            parts == texts(entries@),
            list@ == joined(parts.take(i as int)),
        decreases entries.len() - i,
    {
        proof {
            assert(parts.take(i + 1).drop_last() == parts.take(i as int));
            assert(parts.take(i + 1).last() == entries[i as int]@);
            if i == 0 {
                assert(joined(parts.take(0)) == Seq::<char>::empty());
                assert(Seq::<char>::empty() + entries[0]@ == entries[0]@);
            }
        }
        if i > 0 {
            list.append(",");
        }
        list.append(entries[i].as_str());
        i += 1;
    }
    proof {
        assert(parts.take(entries.len() as int) == parts);
    }
    let mut text = String::from_str("{\"statuses\":[");
    text.append(list.as_str());
    text.append("]}");
    text
}

/// Where a run of entries cannot be written up to some point, it cannot be
/// written as a whole.
proof fn lemma_entry_texts_prefix(entries: Seq<ExportStatusView>, n: int)
    requires
        0 <= n <= entries.len(),
        entry_texts(entries.take(n)) is None,
    ensures
        entry_texts(entries) is None,
    decreases entries.len(),
{
    if n < entries.len() {
        assert(entries.drop_last().take(n) == entries.take(n));
        lemma_entry_texts_prefix(entries.drop_last(), n);
    } else {
        assert(entries.take(n) == entries);
    }
}

/// Writes the text of one export entry.
fn encode_entry(entry: &ExportStatus) -> (r: Result<String, serde_json::Error>)
    ensures
        r is Ok <==> entry_text(entry@) is Some,
        r matches Ok(text) ==> entry_text(entry@) == Some(text@) && one_line(text@),
{
    let name = match value_text(&string_value(entry.name.as_str())) {
        Ok(text) => text,
        Err(e) => {
            return Err(e);
        },
    };
    match value_text(&entry.value) {
        Ok(value) => {
            proof {
                lemma_entry_frame_one_line(name@, value@);
            }
            Ok(frame_entry(name.as_str(), value.as_str()))
        },
        Err(e) => Err(e),
    }
}

/// Writes the line that carries a method under an id. It fails exactly where
/// a value of the method cannot be written as JSON. What it writes is one
/// line: it holds no newline.
pub fn encode(id: u64, method: &Method) -> (r: Result<String, SendError>)
    ensures
        r is Ok <==> request_line(id, method@) is Some,
        r matches Ok(line) ==> request_line(id, method@) == Some(line@) && one_line(line@),
        r matches Err(e) ==> e is Serialize,
{
    match method {
        Method::GetStatus => {
            proof {
                lemma_get_status_is_one_line(id);
            }
            Ok(frame_request(id, "get_status", None))
        },
        Method::Export(statuses) => {
            let ghost entries = export_views(statuses@);
            let mut written: Vec<String> = Vec::new();
            let mut i: usize = 0;
            while i < statuses.len()
                invariant
                    i <= statuses.len(),
                    entries == export_views(statuses@),
                    method@ == MethodView::Export(entries),
                    entry_texts(entries.take(i as int)) == Some(texts(written@)),
                    all_one_line(texts(written@)),
                decreases statuses.len() - i,
            {
                proof {
                    assert(entries.take(i + 1).drop_last() == entries.take(i as int));
                    assert(entries.take(i + 1).last() == statuses[i as int]@);
                }
                match encode_entry(&statuses[i]) {
                    Ok(text) => {
                        proof {
                            assert(texts(written@.push(text)) == texts(written@).push(text@));
                        }
                        written.push(text);
                    },
                    Err(e) => {
                        proof {
                            lemma_entry_texts_prefix(entries, i + 1);
                        }
                        return Err(SendError::Serialize(e));
                    },
                }
                i += 1;
            }
            proof {
                assert(entries.take(statuses.len() as int) == entries);
            }
            let params = frame_statuses(&written);
            proof {
                reveal_strlit("export");
                lemma_statuses_frame_one_line(texts(written@));
                lemma_request_frame_one_line(id, "export"@, Some(params@));
            }
            Ok(frame_request(id, "export", Some(params.as_str())))
        },
    }
}

/// Makes a reply of the parts of an envelope, where they make one up.
pub fn envelope(
    id: Option<u64>,
    display: Option<String>,
    value: Option<Value>,
    code: Option<u64>,
    message: Option<String>,
) -> (r: Option<Receive>)
    ensures
        reply_view(r) == envelope_of(id, text_view(display), value, code, text_view(message)),
{
    let id = match id {
        Some(id) => id,
        None => {
            return None;
        },
    };
    match (display, value) {
        (Some(display), Some(value)) => {
            return Some(
                Receive {
                    id,
                    response: ResponseResult::Response(
                        Response::ImportStatus(ImportStatus { display, value }),
                    ),
                },
            );
        },
        _ => {},
    }
    match (code, message) {
        (Some(code), Some(message)) => {
            if code <= usize::MAX as u64 {
                Some(Receive { id, response: ResponseResult::Error { code: code as usize, message } })
            } else {
                None
            }
        },
        _ => None,
    }
}

fn read_u64(value: &Value, key: &str) -> (r: Option<u64>)
    ensures
        r == u64_member(*value, key@),
{
    match member(value, key) {
        Some(m) => as_u64(m),
        None => None,
    }
}

fn read_str(value: &Value, key: &str) -> (r: Option<String>)
    ensures
        text_view(r) == str_member(*value, key@),
{
    match member(value, key) {
        Some(m) => match as_str(m) {
            Some(s) => Some(String::from_str(s)),
            None => None,
        },
        None => None,
    }
}

fn read_value(value: &Value, key: &str) -> (r: Option<Value>)
    ensures
        r == json_member(*value, key@),
{
    match member(value, key) {
        Some(m) => Some(m.clone()),
        None => None,
    }
}

/// Reads the reply that a JSON value is, if it is one.
pub fn decode(value: &Value) -> (r: Option<Receive>)
    ensures
        reply_view(r) == decoded(*value),
{
    match member(value, "response") {
        Some(response) => envelope(
            read_u64(value, "id"),
            read_str(response, "display"),
            read_value(response, "value"),
            read_u64(response, "code"),
            read_str(response, "message"),
        ),
        None => None,
    }
}

/// The id that a client takes for its `n`-th send from now on, counting
/// from 0, where `next` is the id that its next send takes. Every send
/// takes an id, whether or not its request goes out.
pub open spec fn id_taken(next: u64, n: nat) -> int {
    next + n
}

/// Ids rise from send to send: of two sends of one client the later takes
/// the greater id, so that no id is taken twice.
pub proof fn lemma_ids_rise(next: u64, earlier: nat, later: nat)
    requires
        earlier < later,
    ensures
        id_taken(next, earlier) < id_taken(next, later),
{
}

/// The client: the source of request ids.
#[derive(Debug)]
pub struct JsonRpc {
    next_id: u64,
}

impl View for JsonRpc {
    type V = u64;

    /// The id that the next request will carry.
    closed spec fn view(&self) -> u64 {
        self.next_id
    }
}

impl JsonRpc {
    /// A client that has sent nothing: its first request carries id 0.
    pub fn new() -> (client: JsonRpc)
        ensures
            client@ == 0,
    {
        JsonRpc { next_id: 0 }
    }

    /// The id that the next request will carry.
    pub fn next_id(&self) -> (id: u64)
        ensures
            id == self@,
    {
        self.next_id
    }

    /// What a send under an id comes to, given what the channel answered.
    pub fn outcome(id: u64, written: Result<(), TransportError>) -> (r: Result<u64, SendError>)
        ensures
            match written {
                Ok(()) => r matches Ok(sent) && sent == id,
                Err(e) => r matches Err(SendError::Transport(cause)) && cause == e,
            },
    {
        match written {
            Ok(()) => Ok(id),
            Err(e) => Err(SendError::Transport(e)),
        }
    }

    /// Sends a request: takes the next id, writes the request's line and
    /// hands it to the channel. The id is used up whether or not the request
    /// went out.
    ///
    /// A request whose values cannot be written as JSON fails with
    /// `SendError::Serialize` and reaches no channel. Any other request is
    /// handed to the channel as one line, without a newline in it, and
    /// succeeds exactly where the channel takes it: a closed channel does
    /// not, and one that is sure to take a line does.
    pub fn send<S: Sender>(&mut self, method: Method, channel: &mut Channel<S>) -> (r: Result<
        u64,
        SendError,
    >)
        requires
            old(self)@ < u64::MAX,
        ensures
            final(self)@ == id_taken(old(self)@, 1),
            final(channel).is_open() == old(channel).is_open(),
            r matches Ok(id) ==> id == id_taken(old(self)@, 0),
            r is Ok ==> one_line(final(channel).taken().last()),
            sends(
                r,
                old(channel).taken(),
                final(channel).taken(),
                old(channel).is_open(),
                old(channel).unfailing(),
                request_line(old(self)@, method@),
            ),
    {
        let id = self.next_id;
        self.next_id = id + 1;
        match encode(id, &method) {
            Ok(line) => JsonRpc::outcome(id, channel.send(line)),
            Err(e) => Err(e),
        }
    }

    /// Reads one incoming line: the reply that it carries, or `None` for a
    /// line that carries none, which the caller passes over.
    pub fn receive(&self, line: &str) -> (r: Option<Receive>)
        ensures
            reply_view(r) == received(line@),
    {
        match parse_value(line) {
            Ok(value) => decode(&value),
            Err(_) => None,
        }
    }

    /// Reads a run of incoming lines: the replies they carry, in the order
    /// of the lines. A line that carries none does not end the run.
    pub fn receive_all(&self, lines: &Vec<String>) -> (replies: Vec<Receive>)
        ensures
            receive_views(replies@) == received_all(texts(lines@)),
    {
        let ghost all = texts(lines@);
        let mut replies: Vec<Receive> = Vec::new();
        let mut i: usize = 0;
        while i < lines.len()
            invariant
                i <= lines.len(),
                all == texts(lines@),
                receive_views(replies@) == received_all(all.take(i as int)),
            decreases lines.len() - i,
        {
            proof {
                assert(all.take(i + 1).drop_last() == all.take(i as int));
                assert(all.take(i + 1).last() == lines[i as int]@);
            }
            match self.receive(lines[i].as_str()) {
                Some(reply) => {
                    proof {
                        assert(receive_views(replies@.push(reply)) == receive_views(replies@).push(
                            reply@,
                        ));
                    }
                    replies.push(reply);
                },
                None => {},
            }
            i += 1;
        }
        proof {
            assert(all.take(lines.len() as int) == all);
        }
        replies
    }
}

} // verus!
