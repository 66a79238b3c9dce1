//! The sender: how a file is offered to the receiver, and what its answers mean.
use crate::digest;
use crate::encoding;
use crate::encoding::encode_header_value;
use crate::error;
use crate::error::{ErrorKind, TransferError};
use crate::filename;
use crate::filename::archive_name_of;
use crate::http;
use crate::http::{field, head_text, Field, HttpResponse};
use crate::json;
use crate::json::{parse_reply, JsonObject};
use crate::protocol;
use crate::protocol::Status;
use crate::receiver;
use crate::text;
use crate::text::{decimal_text, same_text};
use crate::token;
use crate::token::authorization;
use crate::upload;
use vstd::prelude::*;
use vstd::utf8::*;

verus! {

/// The longest body of an answer to an upload, in bytes.
pub const MAX_RESPONSE_BYTES: usize = 65_536;

/// The longest body of an answer to a question for the receiver's health, in bytes.
pub const MAX_HEALTH_BYTES: usize = 16_384;

/// How long the receiver may take to tell that it is there, in seconds.
pub const PREFLIGHT_TIMEOUT_SECONDS: u64 = 3;

// ---------------------------------------------------------------------------------------------
// Where the receiver is

/// Where the receiver is reached.
#[derive(Clone, Debug)]
pub enum ReceiverEndpoint {
    Tcp { host: String, port: u16 },
    Unix(String),
}

impl ReceiverEndpoint {
    /// The endpoint in words.
    pub open spec fn shown(self) -> Seq<char> {
        match self {
            ReceiverEndpoint::Tcp { host, port } => host@ + ":"@ + text::decimal(port as nat),
            ReceiverEndpoint::Unix(path) => path@,
        }
    }

    pub fn display(&self) -> (r: String)
        ensures
            r@ == self.shown(),
    {
        match self {
            ReceiverEndpoint::Tcp { host, port } => {
                let mut shown = host.as_str().to_owned();
                shown.append(":");
                let number = decimal_text(*port as u128);
                shown.append(number.as_str());
                shown
            },
            ReceiverEndpoint::Unix(path) => path.as_str().to_owned(),
        }
    }
}

// ---------------------------------------------------------------------------------------------
// Whether the receiver is there

/// How long the receiver may take to tell that it is there.
pub open spec fn preflight(timeout: nat) -> Result<nat, error::Fault> {
    if timeout == 0 {
        Err(error::fault(ErrorKind::ZeroTimeout))
    } else if timeout < PREFLIGHT_TIMEOUT_SECONDS {
        Ok(timeout)
    } else {
        Ok(PREFLIGHT_TIMEOUT_SECONDS as nat)
    }
}

pub fn preflight_timeout(timeout_seconds: u64) -> (r: Result<u64, TransferError>)
    ensures
        error::number_result(r) == preflight(timeout_seconds as nat),
{
    if timeout_seconds == 0 {
        return Err(TransferError::new(ErrorKind::ZeroTimeout));
    }
    if timeout_seconds < PREFLIGHT_TIMEOUT_SECONDS {
        Ok(timeout_seconds)
    } else {
        Ok(PREFLIGHT_TIMEOUT_SECONDS)
    }
}

/// The fields of a question for the receiver's health.
pub open spec fn health_fields() -> Seq<(Seq<char>, Seq<char>)> {
    seq![("Host"@, "localhost"@), ("Connection"@, "close"@)]
}

/// Writes a question for the receiver's health.
pub fn health_request() -> (r: String)
    ensures
        r@ == receiver::request_line("GET"@, "/health"@) + http::header_block(health_fields()),
{
    let mut fields: Vec<Field> = Vec::new();
    fields.push(field("Host", "localhost"));
    fields.push(field("Connection", "close"));
    assert(http::fields_of(fields@) =~= health_fields());
    proof {
        reveal_strlit("GET /health HTTP/1.1\r\n");
        reveal_strlit("GET");
        reveal_strlit(" ");
        reveal_strlit("/health");
        reveal_strlit(" HTTP/1.1\r\n");
        assert("GET /health HTTP/1.1\r\n"@ =~= receiver::request_line("GET"@, "/health"@));
    }
    head_text("GET /health HTTP/1.1\r\n", &fields)
}

/// The receiver could not be asked.
pub fn receiver_unavailable(endpoint: &ReceiverEndpoint) -> (r: TransferError)
    ensures
        r@ == error::fault_about(ErrorKind::ReceiverUnavailable, endpoint.shown()),
{
    TransferError::about(ErrorKind::ReceiverUnavailable, endpoint.display())
}

/// An answer that only the receiver gives.
pub open spec fn is_healthy(
    status: nat,
    object: Option<Map<Seq<char>, json::JsonFieldModel>>,
) -> bool {
    &&& status == 200
    &&& object matches Some(object) && json::member_text(object, "service"@) == Some(
        "herdr-remote-download"@,
    ) && json::member_text(object, "status"@) == Some("ok"@)
}

/// What an answer to the question for health means.
pub open spec fn health_verdict(
    shown: Seq<char>,
    status: nat,
    object: Option<Map<Seq<char>, json::JsonFieldModel>>,
) -> Result<(), error::Fault> {
    if is_healthy(status, object) {
        Ok(())
    } else {
        Err(error::fault_about(ErrorKind::UnexpectedService, shown))
    }
}

/// The model of an object that may be missing.
pub open spec fn object_option(object: Option<JsonObject>) -> Option<
    Map<Seq<char>, json::JsonFieldModel>,
> {
    match object {
        Some(object) => Some(object@),
        None => None,
    }
}

fn text_is(object: &JsonObject, name: &str, value: &str) -> (r: bool)
    ensures
        r == (json::member_text(object@, name@) == Some(value@)),
{
    match object.text(name) {
        Some(text) => same_text(text, value),
        None => false,
    }
}

/// Judges an answer whose body was read.
pub fn judge_health(endpoint: &ReceiverEndpoint, status: u16, object: Option<JsonObject>) -> (r:
    Result<(), TransferError>)
    ensures
        error::unit_result(r) == health_verdict(
            endpoint.shown(),
            status as nat,
            object_option(object),
        ),
{
    let healthy = match &object {
        Some(object) => status == 200 && text_is(object, "service", "herdr-remote-download")
            && text_is(object, "status", "ok"),
        None => false,
    };
    if healthy {
        Ok(())
    } else {
        Err(TransferError::about(ErrorKind::UnexpectedService, endpoint.display()))
    }
}

/// Judges the answer to the question for the receiver's health.
pub fn check_receiver(endpoint: &ReceiverEndpoint, response: &HttpResponse) -> (r: Result<
    (),
    TransferError,
>)
    ensures
        error::unit_result(r) == health_verdict(
            endpoint.shown(),
            response.status as nat,
            json::reply_object(response.body@),
        ),
{
    let object = parse_reply(&response.body);
    judge_health(endpoint, response.status, object)
}

// ---------------------------------------------------------------------------------------------
// What is sent

/// What a path that is to be sent stands for.
#[derive(Clone, Copy, Debug, PartialEq, Eq, Structural)]
pub enum PathKind {
    Directory,
    RegularFile,
    Other,
}

/// What is sent: the name that is announced, and whether it is an archive that is to be extracted.
pub struct Source {
    pub filename: String,
    pub extract: bool,
}

/// What is sent for a path: a directory as an archive of its name, a regular file as it is.
pub open spec fn source_of(kind: PathKind, name: Option<Seq<char>>, shown: Seq<char>) -> Result<
    (Seq<char>, bool),
    error::Fault,
> {
    match kind {
        PathKind::Directory => match name {
            Some(name) => Ok((filename::archive_name(name), true)),
            None => Err(error::fault(ErrorKind::DirectoryNameNotUtf8)),
        },
        PathKind::RegularFile => match name {
            Some(name) => Ok((name, false)),
            None => Err(error::fault(ErrorKind::FilenameNotUtf8)),
        },
        PathKind::Other => Err(error::fault_about(ErrorKind::NotTransferable, shown)),
    }
}

/// Decides what is sent for a path, from its kind, its final component where that is UTF-8, and
/// the path as it is shown.
pub fn choose_source(kind: PathKind, name: Option<&str>, shown: &str) -> (r: Result<
    Source,
    TransferError,
>)
    ensures
        match r {
            Ok(source) => source_of(kind, crate::paths::text_option(name), shown@) == Ok::<
                _,
                error::Fault,
            >((source.filename@, source.extract)),
            Err(error) => source_of(kind, crate::paths::text_option(name), shown@) == Err::<
                (Seq<char>, bool),
                error::Fault,
            >(error@),
        },
{
    match kind {
        PathKind::Directory => match name {
            Some(name) => Ok(Source { filename: archive_name_of(name), extract: true }),
            None => Err(TransferError::new(ErrorKind::DirectoryNameNotUtf8)),
        },
        PathKind::RegularFile => match name {
            Some(name) => Ok(Source { filename: name.to_owned(), extract: false }),
            None => Err(TransferError::new(ErrorKind::FilenameNotUtf8)),
        },
        PathKind::Other => Err(
            TransferError::about(ErrorKind::NotTransferable, shown.to_owned()),
        ),
    }
}

/// A file is within the limit.
pub fn check_size(length: u64, max_bytes: u64) -> (r: Result<(), TransferError>)
    ensures
        error::unit_result(r) == if length <= max_bytes {
            Ok::<(), error::Fault>(())
        } else {
            Err(
                error::fault_about(ErrorKind::FileTooLarge, text::decimal(max_bytes as nat)),
            )
        },
{
    if length > max_bytes {
        return Err(TransferError::about(ErrorKind::FileTooLarge, decimal_text(max_bytes as u128)));
    }
    Ok(())
}

/// As many bytes as were announced were sent.
pub fn check_sent(sent: u64, length: u64) -> (r: Result<(), TransferError>)
    ensures
        error::unit_result(r) == if sent == length {
            Ok::<(), error::Fault>(())
        } else {
            Err(error::fault(ErrorKind::FileChanged))
        },
{
    if sent != length {
        return Err(TransferError::new(ErrorKind::FileChanged));
    }
    Ok(())
}

/// The fields of an upload.
pub open spec fn upload_fields(
    token: Seq<char>,
    length: nat,
    encoded: Seq<char>,
    extract: bool,
    checksum: Seq<char>,
) -> Seq<(Seq<char>, Seq<char>)> {
    let front = seq![
        ("Host"@, "localhost"@),
        ("Authorization"@, token::bearer(token)),
        ("Content-Length"@, text::decimal(length)),
        ("Content-Type"@, protocol::FILE_CONTENT_TYPE@),
        ("X-Herdr-Filename"@, encoded),
    ];
    let back = seq![("X-Herdr-SHA256"@, checksum), ("Connection"@, "close"@)];
    if extract {
        front.push(("X-Herdr-Extract"@, "1"@)) + back
    } else {
        front + back
    }
}

/// The headers that a receiver reads from an upload.
pub open spec fn upload_headers(
    token: Seq<char>,
    length: nat,
    encoded: Seq<char>,
    extract: bool,
    checksum: Seq<char>,
) -> Map<Seq<char>, Seq<char>> {
    http::header_map(http::lowered_fields(upload_fields(token, length, encoded, extract, checksum)))
}

/// The fields of an upload are modest, and tell the receiver what it looks for.
pub proof fn lemma_upload_fields(
    token: Seq<char>,
    length: nat,
    encoded: Seq<char>,
    extract: bool,
    checksum: Seq<char>,
)
    requires
        token::is_token(token),
        length <= u64::MAX,
        0 < encoded.len() <= encoding::MAX_ENCODED_BYTES,
        forall|i: int| 0 <= i < encoded.len() ==> encoding::is_base64url_char(#[trigger] encoded[i]),
        digest::is_checksum(checksum),
    ensures
        protocol::is_modest(upload_fields(token, length, encoded, extract, checksum)),
        ({
            let headers = upload_headers(token, length, encoded, extract, checksum);
            &&& http::lookup(headers, "authorization"@) == Some(token::bearer(token))
            &&& http::lookup(headers, "content-length"@) == Some(text::decimal(length))
            &&& http::lookup(headers, "x-herdr-filename"@) == Some(encoded)
            &&& http::lookup(headers, "x-herdr-sha256"@) == Some(checksum)
            &&& http::lookup(headers, "x-herdr-extract"@) is Some <==> extract
        }),
{
    let fields = upload_fields(token, length, encoded, extract, checksum);
    protocol::lemma_names();
    protocol::lemma_decimal_is_value(length);
    crate::chooser::lemma_checksum_is_value(checksum);
    reveal_strlit("localhost");
    reveal_strlit("application/octet-stream");
    reveal_strlit("close");
    reveal_strlit("1");
    reveal_strlit("Bearer ");
    assert(protocol::is_value_text("localhost"@));
    assert(protocol::is_value_text(protocol::FILE_CONTENT_TYPE@));
    assert(protocol::is_value_text("close"@));
    assert(protocol::is_value_text("1"@));
    let bearer = token::bearer(token);
    assert(protocol::is_value_text(bearer)) by {
        assert forall|i: int| 0 <= i < bearer.len() implies ' ' <= #[trigger] bearer[i] <= '~' by {
            if i >= 7 {
                assert(bearer[i] == token[i - 7]);
                assert(text::is_hex_digit(token[i - 7]));
            }
        }
        assert(bearer.last() == token[63]);
        assert(text::is_hex_digit(token[63]));
    }
    assert(protocol::is_value_text(encoded)) by {
        assert forall|i: int| 0 <= i < encoded.len() implies '!' <= #[trigger] encoded[i]
            <= '~' by {
            assert(encoding::is_base64url_char(encoded[i]));
        }
        assert(encoded[0] != ' ' && encoded.last() != ' ');
    }
    assert(protocol::is_modest(fields));
    let names = http::lowered_fields(fields);
    let n = fields.len() as int;
    assert(names[0].0 == "host"@);
    assert(names[1].0 == "authorization"@);
    assert(names[2].0 == "content-length"@);
    assert(names[3].0 == "content-type"@);
    assert(names[4].0 == "x-herdr-filename"@);
    assert(names[n - 2].0 == "x-herdr-sha256"@);
    assert(names[n - 1].0 == "connection"@);
    if extract {
        assert(names[5].0 == "x-herdr-extract"@);
        http::lemma_lookup(names, 5);
    } else {
        http::lemma_lookup_none(names, "x-herdr-extract"@);
    }
    http::lemma_lookup(names, 1);
    http::lemma_lookup(names, 2);
    http::lemma_lookup(names, 4);
    http::lemma_lookup(names, n - 2);
}

/// Writes the head of an upload. A receiver with the same token and a sufficient limit reads it
/// and takes the file in: under its cleaned name, with the same length and checksum, and extracts
/// it where it is an archive of a directory.
pub fn upload_head(token: &str, length: u64, source: &Source, checksum: &str) -> (r: String)
    requires
        encoding::base64_length(encode_utf8(source.filename@).len()) <= isize::MAX,
    ensures
        ({
            let encoded = encoding::base64url(encode_utf8(source.filename@));
            let fields = upload_fields(token@, length as nat, encoded, source.extract, checksum@);
            let headers = upload_headers(token@, length as nat, encoded, source.extract, checksum@);
            &&& r@ == receiver::request_line("POST"@, http::TRANSFER_PATH@) + http::header_block(
                fields,
            )
            &&& token::is_token(token@) && digest::is_checksum(checksum@) && encoded.len()
                <= encoding::MAX_ENCODED_BYTES ==> (filename::clean_name(source.filename@) matches Ok(
                clean,
            ) ==> {
                &&& forall|body: Seq<char>|
                    receiver::request_run(
                        receiver::RequestProgress::Started,
                        text::lines(#[trigger] (r@ + body)),
                    ) == (receiver::RequestProgress::Complete {
                        method: "POST"@,
                        target: http::TRANSFER_PATH@,
                        headers,
                    })
                &&& receiver::announced_name(headers) == Ok::<Seq<char>, error::Fault>(clean)
                &&& forall|max: nat|
                    length <= max ==> #[trigger] receiver::upload_decision(
                        token@,
                        max,
                        headers,
                        Ok(clean),
                    ) == receiver::DecisionModel::Receive(
                        receiver::UploadOrder {
                            length: length as nat,
                            filename: clean,
                            checksum: checksum@,
                            extract: source.extract,
                        },
                    )
            })
        }),
{
    let encoded = encode_header_value(source.filename.as_str());
    let bearer = authorization(token);
    let number = decimal_text(length as u128);
    let mut fields: Vec<Field> = Vec::new();
    fields.push(field("Host", "localhost"));
    fields.push(field("Authorization", bearer.as_str()));
    fields.push(field("Content-Length", number.as_str()));
    fields.push(field("Content-Type", protocol::FILE_CONTENT_TYPE));
    fields.push(field("X-Herdr-Filename", encoded.as_str()));
    if source.extract {
        fields.push(field("X-Herdr-Extract", "1"));
    }
    fields.push(field("X-Herdr-SHA256", checksum));
    fields.push(field("Connection", "close"));
    let ghost model = upload_fields(token@, length as nat, encoded@, source.extract, checksum@);
    assert(http::fields_of(fields@) =~= model);
    proof {
        reveal_strlit("POST /v1/files HTTP/1.1\r\n");
        reveal_strlit("POST");
        reveal_strlit(" ");
        reveal_strlit("/v1/files");
        reveal_strlit(" HTTP/1.1\r\n");
        assert("POST /v1/files HTTP/1.1\r\n"@ =~= receiver::request_line(
            "POST"@,
            http::TRANSFER_PATH@,
        ));
        assert(protocol::is_name_text("POST"@));
        assert(protocol::is_name_text(http::TRANSFER_PATH@));
    }
    let r = head_text("POST /v1/files HTTP/1.1\r\n", &fields);
    proof {
        if token::is_token(token@) && digest::is_checksum(checksum@) && encoded@.len()
            <= encoding::MAX_ENCODED_BYTES && filename::clean_name(source.filename@) is Ok {
            let clean = filename::clean_name(source.filename@)->Ok_0;
            lemma_cleanable_is_nonempty(source.filename@);
            http::lemma_encoded_is_nonempty(source.filename@);
            lemma_upload_fields(token@, length as nat, encoded@, source.extract, checksum@);
            text::law_decimal_is_read_back(length as nat, u64::MAX as nat);
            let headers = upload_headers(
                token@,
                length as nat,
                encoded@,
                source.extract,
                checksum@,
            );
            assert forall|body: Seq<char>|
                receiver::request_run(
                    receiver::RequestProgress::Started,
                    text::lines(#[trigger] (r@ + body)),
                ) == (receiver::RequestProgress::Complete {
                    method: "POST"@,
                    target: http::TRANSFER_PATH@,
                    headers,
                }) by {
                let line = receiver::request_line("POST"@, http::TRANSFER_PATH@);
                assert(r@ + body =~= line + (http::header_block(model) + body));
                receiver::law_request_is_read_back("POST"@, http::TRANSFER_PATH@, model, body);
            }
            assert(receiver::announced_name(headers) == Ok::<Seq<char>, error::Fault>(clean));
        }
    }
    r
}

/// A text that can be cleaned is not empty.
pub proof fn lemma_cleanable_is_nonempty(value: Seq<char>)
    requires
        filename::clean_name(value) is Ok,
    ensures
        value.len() > 0,
{
    if value.len() == 0 {
        let part = filename::last_part(filename::slashed(value));
        text::lemma_last_index(filename::slashed(value), '/');
        assert(part.len() == 0);
        text::lemma_trim_blank(part);
    }
}

// ---------------------------------------------------------------------------------------------
// What the receiver answers

/// What the receiver's answer to an upload means: the object that tells where the file was saved,
/// or an error with the status and, where one is given, the reason.
pub open spec fn upload_verdict(
    status: nat,
    object: Option<Map<Seq<char>, json::JsonFieldModel>>,
) -> Result<Map<Seq<char>, json::JsonFieldModel>, error::Fault> {
    if status != 201 {
        let detail = match object {
            Some(object) => match json::member_text(object, "error"@) {
                Some(detail) => ": "@ + detail,
                None => ""@,
            },
            None => ""@,
        };
        Err(error::fault_about(ErrorKind::ReceiverRefused, text::decimal(status) + detail))
    } else {
        match object {
            Some(object) => Ok(object),
            None => Err(error::fault(ErrorKind::InvalidResponse)),
        }
    }
}

/// The model of a result that holds an object.
pub open spec fn object_result(r: Result<JsonObject, TransferError>) -> Result<
    Map<Seq<char>, json::JsonFieldModel>,
    error::Fault,
> {
    match r {
        Ok(object) => Ok(object@),
        Err(error) => Err(error@),
    }
}

/// Judges an answer whose body was read.
pub fn judge_upload(status: u16, object: Option<JsonObject>) -> (r: Result<
    JsonObject,
    TransferError,
>)
    ensures
        object_result(r) == upload_verdict(status as nat, object_option(object)),
{
    if status != 201 {
        let mut subject = decimal_text(status as u128);
        match &object {
            Some(object) => match object.text("error") {
                Some(detail) => {
                    subject.append(": ");
                    subject.append(detail);
                },
                None => {},
            },
            None => {},
        }
        proof {
            reveal_strlit("");
            assert(subject@ =~= upload_verdict(
                status as nat,
                object_option(object),
            )->Err_0.subject);
        }
        return Err(TransferError::about(ErrorKind::ReceiverRefused, subject));
    }
    match object {
        Some(object) => Ok(object),
        None => Err(TransferError::new(ErrorKind::InvalidResponse)),
    }
}

/// Judges the receiver's answer to an upload.
pub fn upload_result(response: &HttpResponse) -> (r: Result<JsonObject, TransferError>)
    ensures
        object_result(r) == upload_verdict(
            response.status as nat,
            json::reply_object(response.body@),
        ),
{
    let object = parse_reply(&response.body);
    judge_upload(response.status, object)
}

/// The note that tells where a file was saved.
pub open spec fn saved_note_of(object: Map<Seq<char>, json::JsonFieldModel>) -> Seq<char> {
    "Saved "@ + match json::member_text(object, "path"@) {
        Some(path) => path,
        None => ""@,
    }
}

pub fn saved_note(object: &JsonObject) -> (r: String)
    ensures
        r@ == saved_note_of(object@),
{
    let mut note = "Saved ".to_owned();
    note.append(
        match object.text("path") {
            Some(path) => path,
            None => "",
        },
    );
    note
}

// ---------------------------------------------------------------------------------------------
// Laws

/// The receiver is given up on within three seconds, and never later than asked for.
pub proof fn law_preflight_is_short(timeout: nat)
    ensures
        preflight(timeout) matches Ok(seconds) ==> 0 < seconds <= 3 && seconds <= timeout,
        preflight(timeout) is Err <==> timeout == 0,
{
}

/// A receiver recognises the question for its health, and its answer is recognised.
pub proof fn law_health_is_recognised(config: receiver::ServerConfig, shown: Seq<char>)
    ensures
        ({
            let head = receiver::request_line("GET"@, "/health"@) + http::header_block(
                health_fields(),
            );
            let reply = receiver::health_reply_model(config.destination@);
            &&& receiver::request_run(receiver::RequestProgress::Started, text::lines(head)) == (
            receiver::RequestProgress::Complete {
                method: "GET"@,
                target: "/health"@,
                headers: http::header_map(http::lowered_fields(health_fields())),
            })
            &&& receiver::decision(
                config,
                "GET"@,
                "/health"@,
                http::header_map(http::lowered_fields(health_fields())),
            ) == (receiver::DecisionModel::Answer { discard: 0, reply })
            &&& health_verdict(
                shown,
                reply.status.number(),
                Some(json::read_back(reply.members)),
            ) == Ok::<(), error::Fault>(())
        }),
{
    let head = receiver::request_line("GET"@, "/health"@) + http::header_block(health_fields());
    reveal_strlit("GET");
    reveal_strlit("/health");
    reveal_strlit("localhost");
    reveal_strlit("close");
    protocol::lemma_names();
    assert(protocol::is_name_text("GET"@));
    assert(protocol::is_name_text("/health"@));
    assert(protocol::is_value_text("localhost"@));
    assert(protocol::is_value_text("close"@));
    assert(protocol::is_modest(health_fields()));
    receiver::law_request_is_read_back("GET"@, "/health"@, health_fields(), seq![]);
    assert(head =~= receiver::request_line("GET"@, "/health"@) + (http::header_block(
        health_fields(),
    ) + seq![]));
    let members = receiver::health_reply_model(config.destination@).members;
    reveal_strlit("service");
    reveal_strlit("status");
    reveal_strlit("destination");
    reveal_strlit("capabilities");
    assert("service"@.len() == 7 && "status"@.len() == 6 && "destination"@.len() == 11
        && "capabilities"@.len() == 12);
    json::lemma_read_back(members, 0);
    json::lemma_read_back(members, 1);
}

/// The answer to a saved upload is understood: the sender gets the object that tells the path, the
/// number of bytes and the checksum.
pub proof fn law_saved_reply_is_understood(order: receiver::UploadOrder, path: Seq<char>)
    ensures
        ({
            let reply = upload::saved_reply_model(order, path);
            let object = json::read_back(reply.members);
            &&& upload_verdict(reply.status.number(), Some(object)) == Ok::<_, error::Fault>(object)
            &&& saved_note_of(object) == "Saved "@ + path
            &&& json::member_count(object, "bytes"@) == Some(order.length)
            &&& json::member_text(object, "sha256"@) == Some(order.checksum)
            &&& json::member(object, "extracted"@) == Some(json::JsonFieldModel::Bool(true))
                <==> order.extract
        }),
{
    let members = upload::saved_reply_model(order, path).members;
    reveal_strlit("path");
    reveal_strlit("bytes");
    reveal_strlit("sha256");
    reveal_strlit("extracted");
    assert("path"@.len() == 4 && "bytes"@.len() == 5 && "sha256"@.len() == 6 && "extracted"@.len()
        == 9);
    json::lemma_read_back(members, 0);
    json::lemma_read_back(members, 1);
    json::lemma_read_back(members, 2);
    if order.extract {
        json::lemma_read_back(members, 3);
    } else {
        reveal_with_fuel(json::read_back, 4);
        assert(members.drop_last().drop_last().drop_last() =~= seq![]);
    }
}

/// A refusal is told with its status and its reason.
pub proof fn law_refusal_is_told(status: Status, message: Seq<char>)
    requires
        status != Status::Created,
    ensures
        upload_verdict(
            status.number(),
            Some(json::read_back(protocol::error_reply_model(status, message).members)),
        ) == Err::<Map<Seq<char>, json::JsonFieldModel>, error::Fault>(
            error::fault_about(
                ErrorKind::ReceiverRefused,
                text::decimal(status.number()) + (": "@ + message),
            ),
        ),
{
    json::lemma_read_back(protocol::error_reply_model(status, message).members, 0);
}

/// The receiver is waited for as long as was asked, or three seconds where that is less.
pub proof fn law_preflight_takes_the_shorter_time(timeout: nat)
    ensures
        0 < timeout <= 3 ==> preflight(timeout) == Ok::<nat, error::Fault>(timeout),
        timeout > 3 ==> preflight(timeout) == Ok::<nat, error::Fault>(3),
        timeout == 0 ==> preflight(timeout) == Err::<nat, error::Fault>(
            error::fault(ErrorKind::ZeroTimeout),
        ),
{
}

/// Only an answer with the status 200, the name of the service and the word that all is well counts
/// as that of the receiver; any other is told with where it came from.
pub proof fn law_only_the_receiver_is_healthy(
    shown: Seq<char>,
    status: nat,
    object: Map<Seq<char>, json::JsonFieldModel>,
)
    ensures
        ({
            let well = status == 200 && json::member_text(object, "service"@) == Some(
                "herdr-remote-download"@,
            ) && json::member_text(object, "status"@) == Some("ok"@);
            let other = Err::<(), error::Fault>(
                error::fault_about(ErrorKind::UnexpectedService, shown),
            );
            &&& well ==> health_verdict(shown, status, Some(object)) == Ok::<(), error::Fault>(())
            &&& !well ==> health_verdict(shown, status, Some(object)) == other
            &&& health_verdict(shown, status, None) == other
        }),
{
}

/// A regular file is sent under its own name, and a directory as an archive under its name with
/// `.tar.gz` behind it; nothing else is sent, and nothing without a name.
pub proof fn law_files_are_sent_under_their_name(name: Seq<char>, shown: Seq<char>)
    ensures
        source_of(PathKind::RegularFile, Some(name), shown) == Ok::<_, error::Fault>((name, false)),
        source_of(PathKind::Directory, Some(name), shown) == Ok::<_, error::Fault>(
            (name + ".tar.gz"@, true),
        ),
        source_of(PathKind::Other, Some(name), shown) == Err::<(Seq<char>, bool), error::Fault>(
            error::fault_about(ErrorKind::NotTransferable, shown),
        ),
        source_of(PathKind::Other, None, shown) == Err::<(Seq<char>, bool), error::Fault>(
            error::fault_about(ErrorKind::NotTransferable, shown),
        ),
        source_of(PathKind::RegularFile, None, shown) == Err::<(Seq<char>, bool), error::Fault>(
            error::fault(ErrorKind::FilenameNotUtf8),
        ),
        source_of(PathKind::Directory, None, shown) == Err::<(Seq<char>, bool), error::Fault>(
            error::fault(ErrorKind::DirectoryNameNotUtf8),
        ),
{
}

/// Success is told with status 201 and an object, and the object is what the sender gets; any other
/// status is told as a failure, with the reason where one is given.
pub proof fn law_answers_are_judged_by_their_status(
    status: nat,
    object: Map<Seq<char>, json::JsonFieldModel>,
    reason: Seq<char>,
)
    ensures
        upload_verdict(201, Some(object)) == Ok::<_, error::Fault>(object),
        upload_verdict(201, None) == Err::<Map<Seq<char>, json::JsonFieldModel>, error::Fault>(
            error::fault(ErrorKind::InvalidResponse),
        ),
        status != 201 && json::member_text(object, "error"@) == Some(reason) ==> upload_verdict(
            status,
            Some(object),
        ) == Err::<Map<Seq<char>, json::JsonFieldModel>, error::Fault>(
            error::fault_about(
                ErrorKind::ReceiverRefused,
                text::decimal(status) + ": "@ + reason,
            ),
        ),
        status != 201 && json::member_text(object, "error"@) is None ==> upload_verdict(
            status,
            Some(object),
        ) == Err::<Map<Seq<char>, json::JsonFieldModel>, error::Fault>(
            error::fault_about(ErrorKind::ReceiverRefused, text::decimal(status)),
        ),
        status != 201 ==> upload_verdict(status, None) == Err::<
            Map<Seq<char>, json::JsonFieldModel>,
            error::Fault,
        >(error::fault_about(ErrorKind::ReceiverRefused, text::decimal(status))),
{
    reveal_strlit("");
    assert(text::decimal(status) + ""@ =~= text::decimal(status));
    assert(text::decimal(status) + (": "@ + reason) =~= text::decimal(status) + ": "@ + reason);
}

/// A saved file is told with its path.
pub proof fn law_saved_files_are_told(
    object: Map<Seq<char>, json::JsonFieldModel>,
    path: Seq<char>,
)
    ensures
        json::member_text(object, "path"@) == Some(path) ==> saved_note_of(object) == "Saved "@
            + path,
        json::member_text(object, "path"@) is None ==> saved_note_of(object) == "Saved "@,
{
    reveal_strlit("");
    assert("Saved "@ + ""@ =~= "Saved "@);
}

/// A receiver is shown by its host and port, or by the path of its socket.
pub proof fn law_receivers_are_shown_by_their_address(endpoint: ReceiverEndpoint)
    ensures
        match endpoint {
            ReceiverEndpoint::Tcp { host, port } => endpoint.shown() == host@ + ":"@
                + text::decimal(port as nat),
            ReceiverEndpoint::Unix(path) => endpoint.shown() == path@,
        },
{
}

} // verus!
