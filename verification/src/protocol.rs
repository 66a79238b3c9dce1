//! What the two ends of a transfer say to each other.
use crate::encoding::push_bytes;
use crate::http;
use crate::http::{field, head_text, status_line_text, Field};
use crate::json;
use crate::json::{text_member, write_object, ReplyMember};
use crate::text;
use crate::text::decimal_text;
use vstd::prelude::*;
use vstd::utf8::*;

verus! {

/// The type of a body that holds several files, each behind a header block of its own.
pub const BATCH_CONTENT_TYPE: &'static str = "application/x-herdr-file-batch";

/// The type of a body that holds one file.
pub const FILE_CONTENT_TYPE: &'static str = "application/octet-stream";

// ---------------------------------------------------------------------------------------------
// Fields that are written

/// A printable text without spaces and colons.
pub open spec fn is_name_text(s: Seq<char>) -> bool {
    s.len() > 0 && text::all_in(s, |c: char| '!' <= c <= '~' && c != ':')
}

/// A printable text on one line, without spaces at its ends.
pub open spec fn is_value_text(s: Seq<char>) -> bool {
    &&& s.len() > 0
    &&& text::all_in(s, |c: char| ' ' <= c <= '~')
    &&& s[0] != ' '
    &&& s.last() != ' '
}

/// The longest name and value of a field that is written, together.
pub const MAX_FIELD_CHARS: usize = 2_000;

/// The most fields that are written into one block.
pub const MAX_FIELDS: usize = 10;

/// A short list of short printable fields.
pub open spec fn is_modest(fields: Seq<(Seq<char>, Seq<char>)>) -> bool {
    &&& fields.len() <= MAX_FIELDS
    &&& forall|i: int|
        0 <= i < fields.len() ==> is_name_text((#[trigger] fields[i]).0) && is_value_text(
            fields[i].1,
        ) && fields[i].0.len() + fields[i].1.len() <= MAX_FIELD_CHARS
}

/// A modest list of fields survives being written and read.
pub proof fn lemma_modest(fields: Seq<(Seq<char>, Seq<char>)>)
    requires
        is_modest(fields),
    ensures
        forall|i: int|
            0 <= i < fields.len() ==> http::is_plain_field((#[trigger] fields[i]).0, fields[i].1),
        encode_utf8(http::header_block(fields)).len() <= http::MAX_HEADER_BYTES,
{
    assert forall|i: int| 0 <= i < fields.len() implies http::is_plain_field(
        (#[trigger] fields[i]).0,
        fields[i].1,
    ) && is_ascii_chars(fields[i].0) && is_ascii_chars(fields[i].1) by {
        let (name, value) = fields[i];
        assert forall|j: int| 0 <= j < name.len() implies '!' <= #[trigger] name[j] <= '~' && name[j]
            != ':' by {}
        assert forall|j: int| 0 <= j < value.len() implies ' ' <= #[trigger] value[j] <= '~' by {}
        http::lemma_plain_field(name, value);
    }
    http::lemma_block_size(fields, MAX_FIELD_CHARS as nat);
    assert(fields.len() * (MAX_FIELD_CHARS as nat + 4) + 2 <= 65_536) by (nonlinear_arith)
        requires
            fields.len() <= 10,
            MAX_FIELD_CHARS == 2_000,
    ;
}

/// The names of the fields, and how they are looked up.
pub proof fn lemma_names()
    ensures
        is_name_text("Host"@) && text::lower("Host"@) == "host"@ && "host"@.len() == 4,
        is_name_text("Authorization"@) && text::lower("Authorization"@) == "authorization"@
            && "authorization"@.len() == 13,
        is_name_text("Content-Length"@) && text::lower("Content-Length"@) == "content-length"@
            && "content-length"@.len() == 14 && "content-length"@[0] == 'c',
        is_name_text("Content-Type"@) && text::lower("Content-Type"@) == "content-type"@
            && "content-type"@.len() == 12,
        is_name_text("Connection"@) && text::lower("Connection"@) == "connection"@
            && "connection"@.len() == 10,
        is_name_text("X-Herdr-Filename"@) && text::lower("X-Herdr-Filename"@)
            == "x-herdr-filename"@ && "x-herdr-filename"@.len() == 16,
        is_name_text("X-Herdr-Extract"@) && text::lower("X-Herdr-Extract"@) == "x-herdr-extract"@
            && "x-herdr-extract"@.len() == 15,
        is_name_text("X-Herdr-SHA256"@) && text::lower("X-Herdr-SHA256"@) == "x-herdr-sha256"@
            && "x-herdr-sha256"@.len() == 14 && "x-herdr-sha256"@[0] == 'x',
        is_name_text("X-Herdr-File-Count"@) && text::lower("X-Herdr-File-Count"@)
            == "x-herdr-file-count"@ && "x-herdr-file-count"@.len() == 18,
{
    reveal_strlit("Host");
    reveal_strlit("host");
    assert(text::lower("Host"@) =~= "host"@);
    reveal_strlit("Authorization");
    reveal_strlit("authorization");
    assert(text::lower("Authorization"@) =~= "authorization"@);
    reveal_strlit("Content-Length");
    reveal_strlit("content-length");
    assert(text::lower("Content-Length"@) =~= "content-length"@);
    reveal_strlit("Content-Type");
    reveal_strlit("content-type");
    assert(text::lower("Content-Type"@) =~= "content-type"@);
    reveal_strlit("Connection");
    reveal_strlit("connection");
    assert(text::lower("Connection"@) =~= "connection"@);
    reveal_strlit("X-Herdr-Filename");
    reveal_strlit("x-herdr-filename");
    assert(text::lower("X-Herdr-Filename"@) =~= "x-herdr-filename"@);
    reveal_strlit("X-Herdr-Extract");
    reveal_strlit("x-herdr-extract");
    assert(text::lower("X-Herdr-Extract"@) =~= "x-herdr-extract"@);
    reveal_strlit("X-Herdr-SHA256");
    reveal_strlit("x-herdr-sha256");
    assert(text::lower("X-Herdr-SHA256"@) =~= "x-herdr-sha256"@);
    reveal_strlit("X-Herdr-File-Count");
    reveal_strlit("x-herdr-file-count");
    assert(text::lower("X-Herdr-File-Count"@) =~= "x-herdr-file-count"@);
}

/// A number is a value.
pub proof fn lemma_decimal_is_value(n: nat)
    requires
        n <= u64::MAX,
    ensures
        is_value_text(text::decimal(n)),
        text::decimal(n).len() <= 20,
{
    let s = text::decimal(n);
    text::lemma_decimal_length_of_u64(n);
    text::lemma_decimal_digits(n);
    assert forall|i: int| 0 <= i < s.len() implies '0' <= #[trigger] s[i] <= '9' by {
        assert(text::is_digit(s[i]));
    }
    assert(s[0] != ' ' && s.last() != ' ');
}

// ---------------------------------------------------------------------------------------------
// Replies

/// The statuses that replies have.
#[derive(Clone, Copy, Debug, PartialEq, Eq, Structural)]
pub enum Status {
    Done,
    Created,
    BadRequest,
    Unauthorized,
    NotFound,
    LengthRequired,
    ContentTooLarge,
    Unprocessable,
    InternalError,
}

impl Status {
    pub open spec fn number(self) -> nat {
        match self {
            Status::Done => 200,
            Status::Created => 201,
            Status::BadRequest => 400,
            Status::Unauthorized => 401,
            Status::NotFound => 404,
            Status::LengthRequired => 411,
            Status::ContentTooLarge => 413,
            Status::Unprocessable => 422,
            Status::InternalError => 500,
        }
    }

    pub open spec fn words(self) -> Seq<char> {
        match self {
            Status::Done => "OK"@,
            Status::Created => "Created"@,
            Status::BadRequest => "Bad Request"@,
            Status::Unauthorized => "Unauthorized"@,
            Status::NotFound => "Not Found"@,
            Status::LengthRequired => "Length Required"@,
            Status::ContentTooLarge => "Content Too Large"@,
            Status::Unprocessable => "Unprocessable Content"@,
            Status::InternalError => "Internal Server Error"@,
        }
    }

    pub fn code(self) -> (r: u16)
        ensures
            r == self.number(),
    {
        match self {
            Status::Done => 200,
            Status::Created => 201,
            Status::BadRequest => 400,
            Status::Unauthorized => 401,
            Status::NotFound => 404,
            Status::LengthRequired => 411,
            Status::ContentTooLarge => 413,
            Status::Unprocessable => 422,
            Status::InternalError => 500,
        }
    }

    pub fn reason(self) -> (r: &'static str)
        ensures
            r@ == self.words(),
    {
        match self {
            Status::Done => "OK",
            Status::Created => "Created",
            Status::BadRequest => "Bad Request",
            Status::Unauthorized => "Unauthorized",
            Status::NotFound => "Not Found",
            Status::LengthRequired => "Length Required",
            Status::ContentTooLarge => "Content Too Large",
            Status::Unprocessable => "Unprocessable Content",
            Status::InternalError => "Internal Server Error",
        }
    }
}

/// A reply: a status, and the members of the object in its body.
pub struct Reply {
    pub status: Status,
    pub members: Vec<ReplyMember>,
}

/// The model of a reply.
#[verifier::ext_equal]
pub struct ReplyModel {
    pub status: Status,
    pub members: Seq<(Seq<char>, json::ReplyFieldModel)>,
}

impl View for Reply {
    type V = ReplyModel;

    open spec fn view(&self) -> ReplyModel {
        ReplyModel { status: self.status, members: json::members_of(self.members@) }
    }
}

/// A reply that tells an error.
pub open spec fn error_reply_model(status: Status, message: Seq<char>) -> ReplyModel {
    ReplyModel { status, members: seq![("error"@, json::ReplyFieldModel::Text(message))] }
}

pub fn error_reply(status: Status, message: &str) -> (r: Reply)
    ensures
        r@ == error_reply_model(status, message@),
{
    let mut members: Vec<ReplyMember> = Vec::new();
    members.push(text_member("error", message));
    let r = Reply { status, members };
    assert(r@ =~= error_reply_model(status, message@));
    r
}

/// The fields of a reply with a body of so many bytes.
pub open spec fn reply_fields(length: nat) -> Seq<(Seq<char>, Seq<char>)> {
    seq![
        ("Content-Type"@, "application/json; charset=utf-8"@),
        ("Content-Length"@, text::decimal(length)),
        ("Connection"@, "close"@),
    ]
}

/// What stands before the body of a reply.
pub open spec fn reply_head(status: Status, length: nat) -> Seq<char> {
    http::status_line(status.number(), status.words()) + http::header_block(reply_fields(length))
}

/// The bytes of a reply with the given body.
pub open spec fn reply_bytes(status: Status, body: Seq<u8>) -> Seq<u8> {
    encode_utf8(reply_head(status, body.len())) + body
}

/// Writes a reply: its head, and its members as a JSON object, which is read back as the same
/// object.
pub fn write_json_response(reply: &Reply) -> (r: Vec<u8>)
    ensures
        r@ == reply_bytes(reply@.status, json::json_write(reply@.members)),
        json::reply_object(json::json_write(reply@.members)) == Some(
            json::read_back(reply@.members),
        ),
{
    let body = write_object(&reply.members);
    let start = status_line_text(reply.status.code(), reply.status.reason());
    let mut fields: Vec<Field> = Vec::new();
    fields.push(field("Content-Type", "application/json; charset=utf-8"));
    let length = decimal_text(body.len() as u128);
    fields.push(field("Content-Length", length.as_str()));
    fields.push(field("Connection", "close"));
    assert(http::fields_of(fields@) =~= reply_fields(body@.len()));
    let head = head_text(start.as_str(), &fields);
    let mut bytes: Vec<u8> = Vec::new();
    push_bytes(&mut bytes, head.as_str().as_bytes());
    push_bytes(&mut bytes, &body);
    assert(bytes@ =~= reply_bytes(reply.status, body@));
    bytes
}

/// The head of a reply is read back: its status, and the length of its body.
pub proof fn law_reply_is_read_back(status: Status, length: nat, max: nat, body: Seq<char>)
    requires
        length <= max <= usize::MAX,
    ensures
        http::response_of(text::lines(reply_head(status, length) + body), max) == Ok::<
            _,
            crate::error::Fault,
        >((status.number(), length)),
{
    let fields = reply_fields(length);
    lemma_names();
    lemma_decimal_is_value(length);
    reveal_strlit("application/json; charset=utf-8");
    reveal_strlit("close");
    assert(is_value_text("application/json; charset=utf-8"@));
    assert(is_value_text("close"@));
    assert(is_modest(fields));
    lemma_modest(fields);
    let names = http::lowered_fields(fields);
    assert(names[1].0 == "content-length"@);
    assert(names[2].0 == "connection"@);
    http::lemma_lookup(names, 1);
    lemma_status_words(status);
    let line = http::status_line(status.number(), status.words());
    assert(reply_head(status, length) + body =~= line + (http::header_block(fields) + body));
    http::law_response_is_read_back(status.number(), status.words(), fields, length, max, body);
}

/// The status line of a reply is one short line.
pub proof fn lemma_status_words(status: Status)
    ensures
        !status.words().contains('\n'),
        encode_utf8(http::status_line(status.number(), status.words())).len()
            <= http::MAX_HEADER_BYTES,
{
    reveal_strlit("OK");
    reveal_strlit("Created");
    reveal_strlit("Bad Request");
    reveal_strlit("Unauthorized");
    reveal_strlit("Not Found");
    reveal_strlit("Length Required");
    reveal_strlit("Content Too Large");
    reveal_strlit("Unprocessable Content");
    reveal_strlit("Internal Server Error");
    reveal_strlit("HTTP/1.1 ");
    reveal_strlit(" ");
    reveal_strlit("\r\n");
    let words = status.words();
    let number = text::decimal(status.number());
    let line = http::status_line(status.number(), words);
    text::lemma_decimal_length_of_u64(status.number());
    text::lemma_decimal_digits(status.number());
    assert forall|i: int| 0 <= i < words.len() implies ' ' <= #[trigger] words[i] <= '~' by {}
    assert(is_ascii_chars(words));
    assert forall|i: int| 0 <= i < number.len() implies '0' <= #[trigger] number[i] <= '9' by {
        assert(text::is_digit(number[i]));
    }
    assert(is_ascii_chars(number));
    assert(is_ascii_chars(line));
    is_ascii_chars_encode_utf8(line);
}

/// The statuses are those of HTTP, with their usual words.
pub proof fn law_statuses_are_those_of_http()
    ensures
        Status::Done.number() == 200 && Status::Done.words() == "OK"@,
        Status::Created.number() == 201 && Status::Created.words() == "Created"@,
        Status::BadRequest.number() == 400 && Status::BadRequest.words() == "Bad Request"@,
        Status::Unauthorized.number() == 401 && Status::Unauthorized.words() == "Unauthorized"@,
        Status::NotFound.number() == 404 && Status::NotFound.words() == "Not Found"@,
        Status::LengthRequired.number() == 411 && Status::LengthRequired.words()
            == "Length Required"@,
        Status::ContentTooLarge.number() == 413 && Status::ContentTooLarge.words()
            == "Content Too Large"@,
        Status::Unprocessable.number() == 422 && Status::Unprocessable.words()
            == "Unprocessable Content"@,
        Status::InternalError.number() == 500 && Status::InternalError.words()
            == "Internal Server Error"@,
{
}

/// A reply is spelled out: its status, that it is JSON, how long it is, and that nothing follows.
pub proof fn law_replies_are_spelled_out(status: Status, body: Seq<u8>)
    ensures
        reply_bytes(status, body) == encode_utf8(
            "HTTP/1.1 "@ + text::decimal(status.number()) + " "@ + status.words() + "\r\n"@
                + "Content-Type: application/json; charset=utf-8\r\n"@ + "Content-Length: "@
                + text::decimal(body.len()) + "\r\n"@ + "Connection: close\r\n\r\n"@,
        ) + body,
{
    let length = text::decimal(body.len());
    let none: Seq<(Seq<char>, Seq<char>)> = seq![];
    let one = seq![("Connection"@, "close"@)];
    let two = seq![("Content-Length"@, length)] + one;
    let all = reply_fields(body.len());
    http::law_fields_are_written_line_by_line("Connection"@, "close"@, none);
    assert(one =~= seq![("Connection"@, "close"@)] + none);
    http::law_fields_are_written_line_by_line("Content-Length"@, length, one);
    http::law_fields_are_written_line_by_line(
        "Content-Type"@,
        "application/json; charset=utf-8"@,
        two,
    );
    assert(all =~= seq![("Content-Type"@, "application/json; charset=utf-8"@)] + two);
    reveal_strlit("Content-Type");
    reveal_strlit(": ");
    reveal_strlit("\r\n");
    reveal_strlit("application/json; charset=utf-8");
    reveal_strlit("Content-Type: application/json; charset=utf-8\r\n");
    reveal_strlit("Content-Length");
    reveal_strlit("Content-Length: ");
    reveal_strlit("Connection");
    reveal_strlit("close");
    reveal_strlit("Connection: close\r\n\r\n");
    assert("Content-Type"@ + ": "@ + "application/json; charset=utf-8"@ + "\r\n"@
        =~= "Content-Type: application/json; charset=utf-8\r\n"@);
    assert("Content-Length"@ + ": "@ =~= "Content-Length: "@);
    assert("Connection"@ + ": "@ + "close"@ + "\r\n"@ + "\r\n"@
        =~= "Connection: close\r\n\r\n"@);
    assert(reply_head(status, body.len()) =~= "HTTP/1.1 "@ + text::decimal(status.number()) + " "@
        + status.words() + "\r\n"@ + "Content-Type: application/json; charset=utf-8\r\n"@
        + "Content-Length: "@ + length + "\r\n"@ + "Connection: close\r\n\r\n"@);
}

/// An error is told as a text under the name `error`, and nothing else is told with it.
pub proof fn law_errors_are_told_by_name(status: Status, message: Seq<char>, name: Seq<char>)
    ensures
        error_reply_model(status, message).status == status,
        ({
            let object = json::read_back(error_reply_model(status, message).members);
            &&& json::member_text(object, "error"@) == Some(message)
            &&& name != "error"@ ==> json::member(object, name) is None
        }),
{
    let members = error_reply_model(status, message).members;
    json::lemma_read_back(members, 0);
    if name != "error"@ {
        json::law_nothing_is_read_back_that_was_not_written(members, name);
    }
}

} // verus!
