//! The receiver: what it answers to a request, and how it takes in an upload.
use crate::digest;
use crate::encoding;
use crate::encoding::decode_header_value;
use crate::error;
use crate::error::{ErrorKind, TransferError};
use crate::filename;
use crate::filename::clean_filename;
use crate::http;
use crate::http::{parse_request_line, read_limited_line, HeaderReader, Headers, RequestLine, Route};
use crate::json;
use crate::json::{text_member, ReplyField, ReplyMember};
use crate::protocol;
use crate::protocol::{error_reply, Reply, Status};
use crate::text;
use crate::text::{chars_of, number_of, same_text};
use crate::token;
use crate::token::authorized;
use vstd::prelude::*;
use vstd::utf8::*;

verus! {

/// How many bytes are copied at once.
pub const COPY_BUFFER_BYTES: usize = 1_048_576;

/// What a receiver is started with.
#[derive(Clone, Debug)]
pub struct ServerConfig {
    pub host: String,
    pub port: u16,
    pub destination: String,
    pub token: String,
    pub max_bytes: u64,
    pub verbose: bool,
}

// ---------------------------------------------------------------------------------------------
// Requests

/// A request: its method, its target and its headers.
pub struct Request {
    pub line: RequestLine,
    pub headers: Headers,
}

/// The reading of a request, line by line.
pub struct RequestReader {
    line: Option<RequestLine>,
    reader: HeaderReader,
}

/// Where the reading of a request stands.
pub enum RequestProgress {
    /// The request line is awaited.
    Started,
    /// Header lines are awaited.
    Reading { method: Seq<char>, target: Seq<char>, total: nat, headers: Map<Seq<char>, Seq<char>> },
    /// The request is complete.
    Complete { method: Seq<char>, target: Seq<char>, headers: Map<Seq<char>, Seq<char>> },
    /// The request is refused.
    Refused { fault: error::Fault },
}

/// How one more line moves the reading of a request.
pub open spec fn request_step(progress: RequestProgress, line: Seq<char>) -> RequestProgress {
    match progress {
        RequestProgress::Started => match http::line_length(line, http::MAX_HEADER_BYTES as nat) {
            Err(fault) => RequestProgress::Refused { fault },
            Ok(_) => match http::request_of(line) {
                Err(fault) => RequestProgress::Refused { fault },
                Ok((method, target)) => RequestProgress::Reading {
                    method,
                    target,
                    total: 0,
                    headers: Map::empty(),
                },
            },
        },
        RequestProgress::Reading { method, target, total, headers } => match http::read_line_step(
            total,
            headers,
            line,
        ) {
            http::Progress::Reading { total, headers } => RequestProgress::Reading {
                method,
                target,
                total,
                headers,
            },
            http::Progress::Complete { headers } => RequestProgress::Complete {
                method,
                target,
                headers,
            },
            http::Progress::Refused { fault } => RequestProgress::Refused { fault },
        },
        _ => progress,
    }
}

/// Where the reading of a request stands after some lines.
pub open spec fn request_run(progress: RequestProgress, lines: Seq<Seq<char>>) -> RequestProgress
    decreases lines.len(),
{
    if lines.len() == 0 {
        progress
    } else {
        request_run(request_step(progress, lines[0]), lines.skip(1))
    }
}

impl RequestReader {
    /// Where the reading stands, before it is complete or refused.
    pub closed spec fn progress(&self) -> RequestProgress {
        match self.line {
            None => RequestProgress::Started,
            Some(line) => RequestProgress::Reading {
                method: line.method@,
                target: line.target@,
                total: self.reader.total(),
                headers: self.reader.headers(),
            },
        }
    }

    pub closed spec fn well_formed(&self) -> bool {
        &&& self.reader.total() <= http::MAX_HEADER_BYTES
        &&& self.line is None ==> self.reader.total() == 0 && self.reader.headers() == Map::<
            Seq<char>,
            Seq<char>,
        >::empty()
    }

    pub fn new() -> (r: Self)
        ensures
            r.well_formed(),
            r.progress() == RequestProgress::Started,
    {
        RequestReader { line: None, reader: HeaderReader::new() }
    }

    /// Takes the next line; gives the request once it is complete.
    pub fn accept(&mut self, line: &str) -> (r: Result<Option<Request>, TransferError>)
        requires
            old(self).well_formed(),
        ensures
            match r {
                Ok(None) => final(self).well_formed() && request_step(old(self).progress(), line@)
                    == final(self).progress(),
                Ok(Some(request)) => request_step(old(self).progress(), line@) == (
                RequestProgress::Complete {
                    method: request.line.method@,
                    target: request.line.target@,
                    headers: request.headers@,
                }),
                Err(error) => request_step(old(self).progress(), line@) == (
                RequestProgress::Refused { fault: error@ }),
            },
    {
        let mut current: Option<RequestLine> = None;
        std::mem::swap(&mut current, &mut self.line);
        match current {
            None => {
                match read_limited_line(line, http::MAX_HEADER_BYTES) {
                    Err(error) => return Err(error),
                    Ok(_) => {},
                }
                match parse_request_line(line) {
                    Err(error) => Err(error),
                    Ok(request) => {
                        self.line = Some(request);
                        Ok(None)
                    },
                }
            },
            Some(request) => match self.reader.accept(line) {
                Err(error) => Err(error),
                Ok(complete) => if complete {
                    let mut reader = HeaderReader::new();
                    std::mem::swap(&mut reader, &mut self.reader);
                    Ok(Some(Request { line: request, headers: reader.into_headers() }))
                } else {
                    self.line = Some(request);
                    Ok(None)
                },
            },
        }
    }
}

// ---------------------------------------------------------------------------------------------
// What a request is answered

/// An upload that was asked for and may begin.
pub struct UploadRequest {
    pub length: u64,
    pub filename: String,
    pub checksum: String,
    pub extract: bool,
}

/// The model of an upload that may begin.
#[verifier::ext_equal]
pub struct UploadOrder {
    pub length: nat,
    pub filename: Seq<char>,
    pub checksum: Seq<char>,
    pub extract: bool,
}

impl View for UploadRequest {
    type V = UploadOrder;

    open spec fn view(&self) -> UploadOrder {
        UploadOrder {
            length: self.length as nat,
            filename: self.filename@,
            checksum: self.checksum@,
            extract: self.extract,
        }
    }
}

/// What is done about a request.
pub enum Decision {
    /// Read and drop so many bytes of the body, then reply.
    Answer { discard: u64, reply: Reply },
    /// Take in an upload.
    Receive(UploadRequest),
    /// Let files be chosen and send them.
    Choose,
}

/// The model of a decision.
pub enum DecisionModel {
    Answer { discard: nat, reply: protocol::ReplyModel },
    Receive(UploadOrder),
    Choose,
}

impl View for Decision {
    type V = DecisionModel;

    open spec fn view(&self) -> DecisionModel {
        match self {
            Decision::Answer { discard, reply } => DecisionModel::Answer {
                discard: *discard as nat,
                reply: reply@,
            },
            Decision::Receive(request) => DecisionModel::Receive(request@),
            Decision::Choose => DecisionModel::Choose,
        }
    }
}

/// A decision to answer at once with an error.
pub open spec fn refusal(status: Status, message: Seq<char>) -> DecisionModel {
    DecisionModel::Answer { discard: 0, reply: protocol::error_reply_model(status, message) }
}

fn refuse(status: Status, message: &str) -> (r: Decision)
    ensures
        r@ == refusal(status, message@),
{
    Decision::Answer { discard: 0, reply: error_reply(status, message) }
}

/// The length that headers announce.
pub open spec fn announced_length(headers: Map<Seq<char>, Seq<char>>) -> Option<nat> {
    match http::lookup(headers, "content-length"@) {
        Some(value) => text::parse_number(value, u64::MAX as nat),
        None => None,
    }
}

fn length_of(headers: &Headers) -> (r: Option<u64>)
    ensures
        match r {
            Some(length) => announced_length(headers@) == Some(length as nat),
            None => announced_length(headers@) is None,
        },
{
    match headers.get("content-length") {
        Some(value) => {
            let chars = chars_of(value);
            number_of(&chars, u64::MAX)
        },
        None => None,
    }
}

/// How many bytes of an unwanted body are read and dropped: all of it where its length is known
/// and within the limit, none otherwise.
pub open spec fn discarded(headers: Map<Seq<char>, Seq<char>>, max: nat) -> nat {
    match announced_length(headers) {
        Some(length) => if length <= max {
            length
        } else {
            0
        },
        None => 0,
    }
}

pub fn discard_bounded_body(headers: &Headers, max_bytes: u64) -> (r: u64)
    ensures
        r == discarded(headers@, max_bytes as nat),
{
    match length_of(headers) {
        Some(length) => if length <= max_bytes {
            length
        } else {
            0
        },
        None => 0,
    }
}

/// The name that an upload is to be saved under.
pub open spec fn announced_name(headers: Map<Seq<char>, Seq<char>>) -> Result<
    Seq<char>,
    error::Fault,
> {
    match http::lookup(headers, "x-herdr-filename"@) {
        None => Err(error::fault(ErrorKind::MissingFilename)),
        Some(value) => match encoding::header_text(value) {
            Err(fault) => Err(fault),
            Ok(name) => filename::clean_name(name),
        },
    }
}

/// Reads the name that an upload is to be saved under.
pub fn upload_filename(headers: &Headers) -> (r: Result<String, TransferError>)
    ensures
        error::text_result(r) == announced_name(headers@),
{
    match headers.get("x-herdr-filename") {
        None => Err(TransferError::new(ErrorKind::MissingFilename)),
        Some(value) => match decode_header_value(value) {
            Err(error) => Err(error),
            Ok(name) => clean_filename(name.as_str()),
        },
    }
}

fn checksum_text(value: &str) -> (r: bool)
    ensures
        r == digest::is_checksum(value@),
{
    let chars = chars_of(value);
    if chars.len() != 64 {
        return false;
    }
    let mut i: usize = 0;
    while i < chars.len()
        invariant
            i <= chars@.len(),
            chars@ == value@,
            chars@.len() == 64,
            forall|j: int| 0 <= j < i ==> digest::is_checksum_char(#[trigger] chars@[j]),
        decreases chars@.len() - i,
    {
        let c = chars[i];
        if !(('0' <= c && c <= '9') || ('a' <= c && c <= 'f')) {
            assert(!digest::is_checksum_char(chars@[i as int]));
            return false;
        }
        i += 1;
    }
    true
}

/// The checksum that headers announce.
pub open spec fn announced_checksum(headers: Map<Seq<char>, Seq<char>>) -> Seq<char> {
    match http::lookup(headers, "x-herdr-sha256"@) {
        Some(value) => value,
        None => seq![],
    }
}

/// What is done about an upload: it needs the token, a length within the limit, a name and a
/// checksum.
pub open spec fn upload_decision(
    token: Seq<char>,
    max: nat,
    headers: Map<Seq<char>, Seq<char>>,
    name: Result<Seq<char>, error::Fault>,
) -> DecisionModel {
    if !token::is_authorized(token, http::lookup(headers, "authorization"@)) {
        DecisionModel::Answer {
            discard: discarded(headers, max),
            reply: protocol::error_reply_model(Status::Unauthorized, "unauthorized"@),
        }
    } else {
        match announced_length(headers) {
            None => refusal(Status::LengthRequired, "valid Content-Length required"@),
            Some(length) => if length > max {
                refusal(Status::ContentTooLarge, "file exceeds receiver limit"@)
            } else {
                match name {
                    Err(fault) => refusal(Status::BadRequest, fault.text()),
                    Ok(filename) => if !digest::is_checksum(announced_checksum(headers)) {
                        refusal(Status::BadRequest, "valid SHA-256 header required"@)
                    } else {
                        DecisionModel::Receive(
                            UploadOrder {
                                length,
                                filename,
                                checksum: announced_checksum(headers),
                                extract: http::lookup(headers, "x-herdr-extract"@) is Some,
                            },
                        )
                    },
                }
            },
        }
    }
}

/// Decides about an upload whose name was read.
pub fn decide_upload(
    config: &ServerConfig,
    headers: &Headers,
    name: Result<String, TransferError>,
) -> (r: Decision)
    ensures
        r@ == upload_decision(
            config.token@,
            config.max_bytes as nat,
            headers@,
            error::text_result(name),
        ),
{
    if !authorized(config.token.as_str(), headers.get("authorization")) {
        return Decision::Answer {
            discard: discard_bounded_body(headers, config.max_bytes),
            reply: error_reply(Status::Unauthorized, "unauthorized"),
        };
    }
    let length = match length_of(headers) {
        None => return refuse(Status::LengthRequired, "valid Content-Length required"),
        Some(length) => length,
    };
    if length > config.max_bytes {
        return refuse(Status::ContentTooLarge, "file exceeds receiver limit");
    }
    let filename = match name {
        Err(error) => {
            let message = error.message();
            return refuse(Status::BadRequest, message.as_str());
        },
        Ok(filename) => filename,
    };
    let checksum = match headers.get("x-herdr-sha256") {
        Some(value) => value,
        None => "",
    };
    proof {
        reveal_strlit("");
        assert(checksum@ =~= announced_checksum(headers@));
    }
    if !checksum_text(checksum) {
        return refuse(Status::BadRequest, "valid SHA-256 header required");
    }
    Decision::Receive(
        UploadRequest {
            length,
            filename,
            checksum: checksum.to_owned(),
            extract: headers.get("x-herdr-extract").is_some(),
        },
    )
}

/// What is done about a request for chosen files: it needs the token and an empty body.
pub open spec fn choose_decision(token: Seq<char>, headers: Map<Seq<char>, Seq<char>>) ->
    DecisionModel {
    if !token::is_authorized(token, http::lookup(headers, "authorization"@)) {
        refusal(Status::Unauthorized, "unauthorized"@)
    } else if http::lookup(headers, "content-length"@) != Some("0"@) {
        refusal(Status::BadRequest, "Content-Length must be zero"@)
    } else {
        DecisionModel::Choose
    }
}

/// Decides about a request for chosen files.
pub fn decide_choice(config: &ServerConfig, headers: &Headers) -> (r: Decision)
    ensures
        r@ == choose_decision(config.token@, headers@),
{
    if !authorized(config.token.as_str(), headers.get("authorization")) {
        return refuse(Status::Unauthorized, "unauthorized");
    }
    let empty = match headers.get("content-length") {
        Some(value) => same_text(value, "0"),
        None => false,
    };
    if empty {
        Decision::Choose
    } else {
        refuse(Status::BadRequest, "Content-Length must be zero")
    }
}

/// The reply that tells that the receiver is there.
pub open spec fn health_reply_model(destination: Seq<char>) -> protocol::ReplyModel {
    protocol::ReplyModel {
        status: Status::Done,
        members: seq![
            ("service"@, json::ReplyFieldModel::Text("herdr-remote-download"@)),
            ("status"@, json::ReplyFieldModel::Text("ok"@)),
            ("destination"@, json::ReplyFieldModel::Text(destination)),
            ("capabilities"@, json::ReplyFieldModel::Texts(seq!["download"@, "upload"@])),
        ],
    }
}

pub fn health_reply(destination: &str) -> (r: Reply)
    ensures
        r@ == health_reply_model(destination@),
{
    let mut capabilities: Vec<String> = Vec::new();
    capabilities.push("download".to_owned());
    capabilities.push("upload".to_owned());
    assert(capabilities@.map_values(|text: String| text@) =~= seq!["download"@, "upload"@]);
    let mut members: Vec<ReplyMember> = Vec::new();
    members.push(text_member("service", "herdr-remote-download"));
    members.push(text_member("status", "ok"));
    members.push(text_member("destination", destination));
    members.push(
        ReplyMember {
            name: "capabilities".to_owned(),
            value: ReplyField::Texts(capabilities),
        },
    );
    let r = Reply { status: Status::Done, members };
    assert(r@ =~= health_reply_model(destination@));
    r
}

/// What is done about a request.
pub open spec fn decision(
    config: ServerConfig,
    method: Seq<char>,
    target: Seq<char>,
    headers: Map<Seq<char>, Seq<char>>,
) -> DecisionModel {
    match http::route_of(method, target) {
        Route::Health => DecisionModel::Answer {
            discard: 0,
            reply: health_reply_model(config.destination@),
        },
        Route::Upload => upload_decision(
            config.token@,
            config.max_bytes as nat,
            headers,
            announced_name(headers),
        ),
        Route::ChooseFile => choose_decision(config.token@, headers),
        Route::Unknown => refusal(Status::NotFound, "not found"@),
    }
}

/// Decides about a request.
pub fn decide(config: &ServerConfig, request: &Request) -> (r: Decision)
    ensures
        r@ == decision(
            *config,
            request.line.method@,
            request.line.target@,
            request.headers@,
        ),
{
    match request.line.route() {
        Route::Health => Decision::Answer {
            discard: 0,
            reply: health_reply(config.destination.as_str()),
        },
        Route::Upload => {
            let name = upload_filename(&request.headers);
            decide_upload(config, &request.headers, name)
        },
        Route::ChooseFile => decide_choice(config, &request.headers),
        Route::Unknown => refuse(Status::NotFound, "not found"),
    }
}

/// The reply to a request that could not be read or carried out.
pub fn failure_reply(message: &str) -> (r: Reply)
    ensures
        r@ == protocol::error_reply_model(Status::BadRequest, message@),
{
    error_reply(Status::BadRequest, message)
}

// ---------------------------------------------------------------------------------------------
// Laws

/// A request line.
pub open spec fn request_line(method: Seq<char>, target: Seq<char>) -> Seq<char> {
    method + " "@ + target + " HTTP/1.1\r\n"@
}

/// A request line is read back.
pub proof fn lemma_request_line(method: Seq<char>, target: Seq<char>)
    requires
        protocol::is_name_text(method),
        protocol::is_name_text(target),
        method.len() + target.len() <= 1_000,
    ensures
        http::line_length(request_line(method, target), http::MAX_HEADER_BYTES as nat) is Ok,
        http::request_of(request_line(method, target)) == Ok::<_, error::Fault>((method, target)),
        request_line(method, target).last() == '\n',
        !request_line(method, target).drop_last().contains('\n'),
{
    reveal_strlit(" ");
    reveal_strlit(" HTTP/1.1\r\n");
    let line = request_line(method, target);
    let version = seq!['H', 'T', 'T', 'P', '/', '1', '.', '1'];
    let end = seq!['\r', '\n'];
    assert forall|i: int| 0 <= i < method.len() implies '!' <= #[trigger] method[i] <= '~' by {}
    assert forall|i: int| 0 <= i < target.len() implies '!' <= #[trigger] target[i] <= '~' by {}
    let third = version + end;
    let second = target + (seq![' '] + third);
    assert(line =~= method + (seq![' '] + second));
    text::lemma_words_first(method, seq![' '] + second);
    text::lemma_words_space(' ', second);
    text::lemma_words_first(target, seq![' '] + third);
    text::lemma_words_space(' ', third);
    text::lemma_words_first(version, end);
    assert(text::words(end) =~= seq![]) by {
        text::lemma_words_space('\r', seq!['\n']);
        text::lemma_words_space('\n', seq![]);
        assert(seq!['\r'] + seq!['\n'] =~= end);
        assert(seq!['\n'] + Seq::<char>::empty() =~= seq!['\n']);
        assert(text::words(Seq::<char>::empty()) =~= seq![]);
    }
    assert(text::words(line) =~= seq![method, target, version]);
    assert(is_ascii_chars(line)) by {
        assert forall|i: int| 0 <= i < line.len() implies '\0' <= #[trigger] line[i]
            <= '\u{7f}' by {
            if i < method.len() {
                assert(line[i] == method[i]);
            } else if method.len() + 1 <= i < method.len() + 1 + target.len() {
                assert(line[i] == target[i - method.len() - 1]);
            }
        }
    }
    is_ascii_chars_encode_utf8(line);
    assert forall|j: int| 0 <= j < line.len() - 1 implies #[trigger] line[j] != '\n' by {
        if j < method.len() {
            assert(line[j] == method[j]);
        } else if method.len() + 1 <= j < method.len() + 1 + target.len() {
            assert(line[j] == target[j - method.len() - 1]);
        }
    }
    assert(!line.drop_last().contains('\n'));
}

/// A request that is complete stays so.
proof fn lemma_complete_stays(progress: RequestProgress, lines: Seq<Seq<char>>)
    requires
        progress is Complete,
    ensures
        request_run(progress, lines) == progress,
    decreases lines.len(),
{
    if lines.len() > 0 {
        lemma_complete_stays(progress, lines.skip(1));
    }
}

/// Reading a request goes on as reading its header block does.
proof fn lemma_request_block(
    method: Seq<char>,
    target: Seq<char>,
    total: nat,
    headers: Map<Seq<char>, Seq<char>>,
    lines: Seq<Seq<char>>,
)
    requires
        http::read_block(total, headers, lines) is Ok,
    ensures
        request_run(RequestProgress::Reading { method, target, total, headers }, lines) == (
        RequestProgress::Complete {
            method,
            target,
            headers: http::read_block(total, headers, lines)->Ok_0.0,
        }),
    decreases lines.len(),
{
    match http::read_line_step(total, headers, lines[0]) {
        http::Progress::Reading { total: t, headers: h } => {
            lemma_request_block(method, target, t, h, lines.skip(1));
        },
        http::Progress::Complete { headers: h } => {
            lemma_complete_stays(
                RequestProgress::Complete { method, target, headers: h },
                lines.skip(1),
            );
        },
        http::Progress::Refused { .. } => {},
    }
}

/// A request is read back as it was written: its method, its target and its fields.
pub proof fn law_request_is_read_back(
    method: Seq<char>,
    target: Seq<char>,
    fields: Seq<(Seq<char>, Seq<char>)>,
    body: Seq<char>,
)
    requires
        protocol::is_name_text(method),
        protocol::is_name_text(target),
        method.len() + target.len() <= 1_000,
        protocol::is_modest(fields),
    ensures
        request_run(
            RequestProgress::Started,
            text::lines(request_line(method, target) + (http::header_block(fields) + body)),
        ) == (RequestProgress::Complete {
            method,
            target,
            headers: http::header_map(http::lowered_fields(fields)),
        }),
{
    let line = request_line(method, target);
    let rest = http::header_block(fields) + body;
    lemma_request_line(method, target);
    text::lemma_lines_first(line, rest);
    let all = text::lines(line + rest);
    assert(all[0] == line);
    assert(all.skip(1) =~= text::lines(rest));
    protocol::lemma_modest(fields);
    http::law_header_block_is_read_back(fields, body);
    lemma_request_block(method, target, 0, Map::empty(), text::lines(rest));
}

/// No more of a request than the limit is kept while it is read.
pub proof fn law_request_heads_are_bounded(lines: Seq<Seq<char>>)
    ensures
        request_run(RequestProgress::Started, lines) matches RequestProgress::Reading {
            total,
            ..
        } ==> total <= http::MAX_HEADER_BYTES,
{
    lemma_bounded_from(RequestProgress::Started, lines);
}

proof fn lemma_bounded_from(progress: RequestProgress, lines: Seq<Seq<char>>)
    requires
        progress matches RequestProgress::Reading { total, .. } ==> total <= http::MAX_HEADER_BYTES,
    ensures
        request_run(progress, lines) matches RequestProgress::Reading { total, .. } ==> total
            <= http::MAX_HEADER_BYTES,
    decreases lines.len(),
{
    if lines.len() > 0 {
        lemma_bounded_from(request_step(progress, lines[0]), lines.skip(1));
    }
}

/// Without the token nothing is received and nothing is chosen: both requests are answered with
/// the same status, and at most a body within the limit is read.
pub proof fn law_unauthorized_requests_are_refused(
    config: ServerConfig,
    method: Seq<char>,
    target: Seq<char>,
    headers: Map<Seq<char>, Seq<char>>,
)
    requires
        http::route_of(method, target) is Upload || http::route_of(method, target) is ChooseFile,
        !token::is_authorized(config.token@, http::lookup(headers, "authorization"@)),
    ensures
        decision(config, method, target, headers) matches DecisionModel::Answer {
            discard,
            reply,
        } && reply == protocol::error_reply_model(Status::Unauthorized, "unauthorized"@) && discard
            <= config.max_bytes,
{
}

/// An upload begins only with the token, within the limit, under a clean name and with a checksum.
pub proof fn law_accepted_uploads_are_safe(
    config: ServerConfig,
    method: Seq<char>,
    target: Seq<char>,
    headers: Map<Seq<char>, Seq<char>>,
)
    ensures
        decision(config, method, target, headers) matches DecisionModel::Receive(order) ==> {
            &&& http::route_of(method, target) is Upload
            &&& token::is_authorized(config.token@, http::lookup(headers, "authorization"@))
            &&& order.length <= config.max_bytes
            &&& filename::is_settled(order.filename)
            &&& digest::is_checksum(order.checksum)
        },
{
    if announced_name(headers) is Ok {
        let value = http::lookup(headers, "x-herdr-filename"@)->0;
        let text = encoding::header_text(value)->Ok_0;
        filename::law_cleaning_is_idempotent(text);
    }
}

/// A request is authorized that says `Bearer` and the token.
pub open spec fn says_token(config: ServerConfig, headers: Map<Seq<char>, Seq<char>>) -> bool {
    http::lookup(headers, "authorization"@) == Some("Bearer "@ + config.token@)
}

/// An upload with the token, within the limit, under a safe name and with a checksum is received:
/// under that very name, with that length and checksum, and is extracted exactly where it says so.
pub proof fn law_good_uploads_are_received(
    config: ServerConfig,
    headers: Map<Seq<char>, Seq<char>>,
    length: nat,
    name: Seq<char>,
    checksum: Seq<char>,
)
    requires
        says_token(config, headers),
        http::lookup(headers, "content-length"@) == Some(text::decimal(length)),
        length <= config.max_bytes,
        http::lookup(headers, "x-herdr-filename"@) == Some(
            encoding::base64url(encode_utf8(name)),
        ),
        filename::is_single(name),
        name.len() > 0,
        !text::is_space(name[0]),
        !text::is_space(name.last()),
        name != "."@,
        name != ".."@,
        forall|i: int| 0 <= i < name.len() ==> !text::is_control(#[trigger] name[i]),
        encode_utf8(name).len() <= 240,
        http::lookup(headers, "x-herdr-sha256"@) == Some(checksum),
        checksum.len() == 64,
        forall|i: int|
            0 <= i < 64 ==> '0' <= #[trigger] checksum[i] <= '9' || 'a' <= checksum[i] <= 'f',
    ensures
        decision(config, "POST"@, "/v1/files"@, headers) == DecisionModel::Receive(
            (UploadOrder {
                length,
                filename: name,
                checksum,
                extract: http::lookup(headers, "x-herdr-extract"@) is Some,
            }),
        ),
{
    http::law_three_requests_are_known(seq![], seq![]);
    text::law_decimal_is_read_back(length, u64::MAX as nat);
    filename::law_safe_names_are_kept(name);
    encoding::law_header_value_is_read_back(name);
}

/// What stands in the way of an upload is answered at once, each with its status: no valid length,
/// too great a length, a bad name, a bad checksum. The first of these counts.
pub proof fn law_bad_uploads_are_refused(
    config: ServerConfig,
    headers: Map<Seq<char>, Seq<char>>,
    length: nat,
    fault: error::Fault,
)
    requires
        says_token(config, headers),
        length <= u64::MAX,
    ensures
        ({
            let answer = decision(config, "POST"@, "/v1/files"@, headers);
            let refused = |status: Status, message: Seq<char>|
                (DecisionModel::Answer {
                    discard: 0,
                    reply: protocol::error_reply_model(status, message),
                });
            let announced = http::lookup(headers, "content-length"@) == Some(text::decimal(length));
            &&& http::lookup(headers, "content-length"@) is None ==> answer == refused(
                Status::LengthRequired,
                "valid Content-Length required"@,
            )
            &&& (http::lookup(headers, "content-length"@) matches Some(value)
                && text::parse_number(value, u64::MAX as nat) is None) ==> answer == refused(
                Status::LengthRequired,
                "valid Content-Length required"@,
            )
            &&& announced && length > config.max_bytes ==> answer == refused(
                Status::ContentTooLarge,
                "file exceeds receiver limit"@,
            )
            &&& announced && length <= config.max_bytes && http::lookup(
                headers,
                "x-herdr-filename"@,
            ) is None ==> answer == refused(
                Status::BadRequest,
                error::fault(ErrorKind::MissingFilename).text(),
            )
            &&& announced && length <= config.max_bytes && (http::lookup(
                headers,
                "x-herdr-filename"@,
            ) matches Some(value) && encoding::header_text(value) == Err::<
                Seq<char>,
                error::Fault,
            >(fault)) ==> answer == refused(Status::BadRequest, fault.text())
            &&& announced && length <= config.max_bytes && (http::lookup(
                headers,
                "x-herdr-filename"@,
            ) matches Some(value) && (encoding::header_text(value) matches Ok(name)
                && filename::clean_name(name) == Err::<Seq<char>, error::Fault>(fault)))
                ==> answer == refused(Status::BadRequest, fault.text())
            &&& announced && length <= config.max_bytes && announced_name(headers) is Ok
                && http::lookup(headers, "x-herdr-sha256"@) is None ==> answer == refused(
                Status::BadRequest,
                "valid SHA-256 header required"@,
            )
            &&& announced && length <= config.max_bytes && announced_name(headers) is Ok && (
            http::lookup(headers, "x-herdr-sha256"@) matches Some(value)
                && !digest::is_checksum(value)) ==> answer == refused(
                Status::BadRequest,
                "valid SHA-256 header required"@,
            )
        }),
{
    http::law_three_requests_are_known(seq![], seq![]);
    text::law_decimal_is_read_back(length, u64::MAX as nat);
}

/// Without the token an upload is refused; its body is read and dropped where its length is known
/// and within the limit, and left alone otherwise.
pub proof fn law_unauthorized_bodies_are_dropped(
    config: ServerConfig,
    headers: Map<Seq<char>, Seq<char>>,
    length: nat,
)
    requires
        !says_token(config, headers),
        length <= u64::MAX,
    ensures
        ({
            let answer = decision(config, "POST"@, "/v1/files"@, headers);
            let refused = |discard: nat|
                (DecisionModel::Answer {
                    discard,
                    reply: protocol::error_reply_model(Status::Unauthorized, "unauthorized"@),
                });
            &&& http::lookup(headers, "content-length"@) == Some(text::decimal(length)) && length
                <= config.max_bytes ==> answer == refused(length)
            &&& http::lookup(headers, "content-length"@) == Some(text::decimal(length)) && length
                > config.max_bytes ==> answer == refused(0)
            &&& http::lookup(headers, "content-length"@) is None ==> answer == refused(0)
            &&& decision(config, "POST"@, "/v1/choose-file"@, headers) == refused(0)
        }),
{
    http::law_three_requests_are_known(seq![], seq![]);
    text::law_decimal_is_read_back(length, u64::MAX as nat);
}

/// Files are chosen for a request with the token and an empty body; a body is refused, a request
/// that is not known is not found, and the question for health is answered without the token.
pub proof fn law_other_requests_are_answered(
    config: ServerConfig,
    headers: Map<Seq<char>, Seq<char>>,
    method: Seq<char>,
    target: Seq<char>,
)
    ensures
        says_token(config, headers) && http::lookup(headers, "content-length"@) == Some("0"@)
            ==> decision(config, "POST"@, "/v1/choose-file"@, headers) == DecisionModel::Choose,
        says_token(config, headers) && http::lookup(headers, "content-length"@) != Some("0"@)
            ==> decision(config, "POST"@, "/v1/choose-file"@, headers) == (DecisionModel::Answer {
            discard: 0,
            reply: protocol::error_reply_model(
                Status::BadRequest,
                "Content-Length must be zero"@,
            ),
        }),
        !(method == "GET"@ && target == "/health"@) && !(method == "POST"@ && target
            == "/v1/files"@) && !(method == "POST"@ && target == "/v1/choose-file"@) ==> decision(
            config,
            method,
            target,
            headers,
        ) == (DecisionModel::Answer {
            discard: 0,
            reply: protocol::error_reply_model(Status::NotFound, "not found"@),
        }),
        ({
            let reply = health_reply_model(config.destination@);
            let object = json::read_back(reply.members);
            &&& decision(config, "GET"@, "/health"@, headers) == (DecisionModel::Answer {
                discard: 0,
                reply,
            })
            &&& reply.status == Status::Done
            &&& json::member_text(object, "service"@) == Some("herdr-remote-download"@)
            &&& json::member_text(object, "status"@) == Some("ok"@)
            &&& json::member_text(object, "destination"@) == Some(config.destination@)
            &&& json::member(object, "capabilities"@) is Some
        }),
{
    http::law_three_requests_are_known(method, target);
    let members = health_reply_model(config.destination@).members;
    reveal_strlit("service");
    reveal_strlit("status");
    reveal_strlit("destination");
    reveal_strlit("capabilities");
    assert("service"@.len() == 7 && "status"@.len() == 6 && "destination"@.len() == 11
        && "capabilities"@.len() == 12);
    json::lemma_read_back(members, 0);
    json::lemma_read_back(members, 1);
    json::lemma_read_back(members, 2);
    json::lemma_read_back(members, 3);
}

/// What an upload announces is taken as it is announced: the length in whatever digits, and the name
/// once it is decoded and cleaned.
pub proof fn law_announced_values_are_taken(
    config: ServerConfig,
    headers: Map<Seq<char>, Seq<char>>,
    digits: Seq<char>,
    length: nat,
    encoded: Seq<char>,
    raw: Seq<char>,
    name: Seq<char>,
    checksum: Seq<char>,
)
    requires
        http::lookup(headers, "content-length"@) == Some(digits),
        http::lookup(headers, "x-herdr-filename"@) == Some(encoded),
        http::lookup(headers, "x-herdr-sha256"@) == Some(checksum),
        encoding::header_text(encoded) == Ok::<Seq<char>, error::Fault>(raw),
        filename::clean_name(raw) == Ok::<Seq<char>, error::Fault>(name),
        digest::is_checksum(checksum),
    ensures
        says_token(config, headers) && text::parse_number(digits, u64::MAX as nat) == Some(length)
            && length <= config.max_bytes ==> decision(
            config,
            "POST"@,
            "/v1/files"@,
            headers,
        ) == DecisionModel::Receive(
            (UploadOrder {
                length,
                filename: name,
                checksum,
                extract: http::lookup(headers, "x-herdr-extract"@) is Some,
            }),
        ),
        says_token(config, headers) && text::parse_number(digits, u64::MAX as nat) == Some(length)
            && length > config.max_bytes ==> decision(config, "POST"@, "/v1/files"@, headers) == (
        DecisionModel::Answer {
            discard: 0,
            reply: protocol::error_reply_model(
                Status::ContentTooLarge,
                "file exceeds receiver limit"@,
            ),
        }),
        !says_token(config, headers) && text::parse_number(digits, u64::MAX as nat) is None
            ==> decision(config, "POST"@, "/v1/files"@, headers) == (DecisionModel::Answer {
            discard: 0,
            reply: protocol::error_reply_model(Status::Unauthorized, "unauthorized"@),
        }),
{
    http::law_three_requests_are_known(seq![], seq![]);
}

/// A request begins with its method and its target, one blank between them, and the version.
pub proof fn law_request_lines_are_spelled_out(method: Seq<char>, target: Seq<char>)
    ensures
        request_line(method, target) == method + " "@ + target + " HTTP/1.1\r\n"@,
{
}

} // verus!
