//! The part of HTTP that transfers use: header blocks, request lines, status lines.
use crate::encoding::byte_length;
use crate::error;
use crate::error::{ErrorKind, TransferError};
use crate::text;
use crate::text::{
    chars_of, decimal_text, lowered, number_of, number_problem_of, position_of, same_text, spells,
    split_words, text_of, trimmed,
};
use vstd::prelude::*;
use vstd::slice::slice_subrange;
use vstd::utf8::*;

verus! {

/// The most bytes that a line or a whole header block may have.
pub const MAX_HEADER_BYTES: usize = 65_536;

// ---------------------------------------------------------------------------------------------
// Header fields

/// One header field: its name and its value.
pub struct Field {
    pub name: String,
    pub value: String,
}

impl View for Field {
    type V = (Seq<char>, Seq<char>);

    open spec fn view(&self) -> (Seq<char>, Seq<char>) {
        (self.name@, self.value@)
    }
}

/// The model of a list of fields.
pub open spec fn fields_of(fields: Seq<Field>) -> Seq<(Seq<char>, Seq<char>)> {
    fields.map_values(|field: Field| field@)
}

pub fn field(name: &str, value: &str) -> (r: Field)
    ensures
        r@ == (name@, value@),
{
    Field { name: name.to_owned(), value: value.to_owned() }
}

/// One field as a line.
pub open spec fn field_line(name: Seq<char>, value: Seq<char>) -> Seq<char> {
    name + ": "@ + value + "\r\n"@
}

/// Fields as consecutive lines.
pub open spec fn field_lines(fields: Seq<(Seq<char>, Seq<char>)>) -> Seq<char>
    decreases fields.len(),
{
    if fields.len() == 0 {
        seq![]
    } else {
        field_line(fields[0].0, fields[0].1) + field_lines(fields.skip(1))
    }
}

/// A header block: the fields and the empty line that ends them.
pub open spec fn header_block(fields: Seq<(Seq<char>, Seq<char>)>) -> Seq<char> {
    field_lines(fields) + "\r\n"@
}

/// Writes a start line and a header block.
pub fn head_text(start: &str, fields: &Vec<Field>) -> (r: String)
    ensures
        r@ == start@ + header_block(fields_of(fields@)),
{
    let mut text = start.to_owned();
    let mut i: usize = 0;
    let ghost all = fields_of(fields@);
    assert(all.skip(0) =~= all);
    while i < fields.len()
        invariant
            i <= fields@.len(),
            all == fields_of(fields@),
            text@ + field_lines(all.skip(i as int)) == start@ + field_lines(all),
        decreases fields@.len() - i,
    {
        let ghost before = text@;
        text.append(fields[i].name.as_str());
        text.append(": ");
        text.append(fields[i].value.as_str());
        text.append("\r\n");
        proof {
            let rest = all.skip(i as int);
            assert(rest.skip(1) =~= all.skip(i + 1));
            assert(rest[0] == fields@[i as int]@);
            assert(text@ =~= before + field_line(rest[0].0, rest[0].1));
            assert(text@ + field_lines(all.skip(i + 1)) =~= before + field_lines(rest));
        }
        i += 1;
    }
    proof {
        assert(all.skip(i as int) =~= seq![]);
        assert(text@ =~= start@ + field_lines(all));
    }
    text.append("\r\n");
    assert(text@ =~= start@ + header_block(all));
    text
}

/// The name and the value that a header line gives: the name before the first colon in lower case,
/// the value behind it, both without white space around them.
pub open spec fn parse_field(line: Seq<char>) -> Option<(Seq<char>, Seq<char>)> {
    match text::first_index(line, ':') {
        Some(i) => Some((text::lower(text::trim(line.take(i))), text::trim(line.skip(i + 1)))),
        None => None,
    }
}

// ---------------------------------------------------------------------------------------------
// Headers

/// The headers of a message: for each name the value that was given last.
pub struct Headers {
    entries: Vec<Field>,
}

/// The map that a list of fields gives when later ones replace earlier ones of the same name.
pub open spec fn header_map(fields: Seq<(Seq<char>, Seq<char>)>) -> Map<Seq<char>, Seq<char>>
    decreases fields.len(),
{
    if fields.len() == 0 {
        Map::empty()
    } else {
        header_map(fields.drop_last()).insert(fields.last().0, fields.last().1)
    }
}

/// The value of a name in a map of headers.
pub open spec fn lookup(headers: Map<Seq<char>, Seq<char>>, name: Seq<char>) -> Option<Seq<char>> {
    if headers.dom().contains(name) {
        Some(headers[name])
    } else {
        None
    }
}

impl View for Headers {
    type V = Map<Seq<char>, Seq<char>>;

    closed spec fn view(&self) -> Map<Seq<char>, Seq<char>> {
        header_map(fields_of(self.entries@))
    }
}

impl Headers {
    pub fn new() -> (r: Self)
        ensures
            r@ == Map::<Seq<char>, Seq<char>>::empty(),
    {
        Headers { entries: Vec::new() }
    }

    /// Sets the value of a name.
    pub fn insert(&mut self, name: String, value: String)
        ensures
            final(self)@ == old(self)@.insert(name@, value@),
    {
        let ghost before = fields_of(self.entries@);
        self.entries.push(Field { name, value });
        proof {
            let after = fields_of(self.entries@);
            assert(after.drop_last() =~= before);
            assert(after.last() == (name@, value@));
        }
    }

    /// The value of a name.
    pub fn get(&self, name: &str) -> (r: Option<&str>)
        ensures
            crate::paths::text_option(r) == lookup(self@, name@),
    {
        let ghost all = fields_of(self.entries@);
        let mut n: usize = self.entries.len();
        assert(all.take(n as int) =~= all);
        while n > 0
            invariant
                n <= self.entries@.len(),
                all == fields_of(self.entries@),
                lookup(header_map(all), name@) == lookup(header_map(all.take(n as int)), name@),
            decreases n,
        {
            proof {
                assert(all.take(n as int).drop_last() =~= all.take(n - 1));
                assert(all.take(n as int).last() == self.entries@[n - 1]@);
            }
            if same_text(self.entries[n - 1].name.as_str(), name) {
                return Some(self.entries[n - 1].value.as_str());
            }
            n -= 1;
        }
        None
    }
}

// ---------------------------------------------------------------------------------------------
// Reading header lines

/// The length of a line that was read, in bytes: nothing read means that the connection ended.
pub open spec fn line_length(line: Seq<char>, limit: nat) -> Result<nat, error::Fault> {
    let count = encode_utf8(line).len();
    if count == 0 {
        Err(error::fault(ErrorKind::ConnectionEnded))
    } else if count > limit {
        Err(error::fault(ErrorKind::LineTooLarge))
    } else {
        Ok(count)
    }
}

/// Judges a line that was read.
pub fn read_limited_line(line: &str, limit: usize) -> (r: Result<usize, TransferError>)
    ensures
        match r {
            Ok(count) => line_length(line@, limit as nat) == Ok::<nat, error::Fault>(count as nat),
            Err(error) => line_length(line@, limit as nat) == Err::<nat, error::Fault>(error@),
        },
{
    let count: usize = byte_length(line);
    if count == 0 {
        return Err(TransferError::new(ErrorKind::ConnectionEnded));
    }
    if count > limit {
        return Err(TransferError::new(ErrorKind::LineTooLarge));
    }
    Ok(count)
}

/// The empty line that ends a header block.
pub open spec fn is_end_line(line: Seq<char>) -> bool {
    line == "\r\n"@ || line == "\n"@
}

/// Where the reading of a header block stands.
pub enum Progress {
    /// So many bytes were read, and these headers.
    Reading { total: nat, headers: Map<Seq<char>, Seq<char>> },
    /// The block is complete.
    Complete { headers: Map<Seq<char>, Seq<char>> },
    /// The block is refused.
    Refused { fault: error::Fault },
}

/// How one more line moves the reading of a header block.
pub open spec fn read_line_step(
    total: nat,
    headers: Map<Seq<char>, Seq<char>>,
    line: Seq<char>,
) -> Progress {
    match line_length(line, MAX_HEADER_BYTES as nat) {
        Err(fault) => Progress::Refused { fault },
        Ok(count) => if total + count > MAX_HEADER_BYTES {
            Progress::Refused { fault: error::fault(ErrorKind::HeadersTooLarge) }
        } else if is_end_line(line) {
            Progress::Complete { headers }
        } else {
            match parse_field(line) {
                Some((name, value)) => Progress::Reading {
                    total: total + count,
                    headers: headers.insert(name, value),
                },
                None => Progress::Refused { fault: error::fault(ErrorKind::InvalidHeader) },
            }
        },
    }
}

/// The headers that lines give, and the lines behind the block. Lines that run out before the
/// block is complete mean that the connection ended.
pub open spec fn read_block(
    total: nat,
    headers: Map<Seq<char>, Seq<char>>,
    lines: Seq<Seq<char>>,
) -> Result<(Map<Seq<char>, Seq<char>>, Seq<Seq<char>>), error::Fault>
    decreases lines.len(),
{
    if lines.len() == 0 {
        Err(error::fault(ErrorKind::ConnectionEnded))
    } else {
        match read_line_step(total, headers, lines[0]) {
            Progress::Reading { total, headers } => read_block(total, headers, lines.skip(1)),
            Progress::Complete { headers } => Ok((headers, lines.skip(1))),
            Progress::Refused { fault } => Err(fault),
        }
    }
}

/// The reading of a header block, line by line.
pub struct HeaderReader {
    headers: Headers,
    total: usize,
}

impl HeaderReader {
    pub closed spec fn headers(&self) -> Map<Seq<char>, Seq<char>> {
        self.headers@
    }

    /// The bytes read so far.
    pub closed spec fn total(&self) -> nat {
        self.total as nat
    }

    pub fn new() -> (r: Self)
        ensures
            r.total() == 0,
            r.headers() == Map::<Seq<char>, Seq<char>>::empty(),
    {
        HeaderReader { headers: Headers::new(), total: 0 }
    }

    /// Takes the next line; true once the block is complete.
    pub fn accept(&mut self, line: &str) -> (r: Result<bool, TransferError>)
        requires
            old(self).total() <= MAX_HEADER_BYTES,
        ensures
            match r {
                Ok(true) => final(self).headers() == old(self).headers() && read_line_step(
                    old(self).total(),
                    old(self).headers(),
                    line@,
                ) == (Progress::Complete { headers: final(self).headers() }),
                Ok(false) => read_line_step(old(self).total(), old(self).headers(), line@) == (
                Progress::Reading { total: final(self).total(), headers: final(self).headers() }),
                Err(error) => read_line_step(old(self).total(), old(self).headers(), line@) == (
                Progress::Refused { fault: error@ }),
            },
            r is Ok ==> final(self).total() <= MAX_HEADER_BYTES,
    {
        let count = match read_limited_line(line, MAX_HEADER_BYTES) {
            Ok(count) => count,
            Err(error) => return Err(error),
        };
        if self.total + count > MAX_HEADER_BYTES {
            return Err(TransferError::new(ErrorKind::HeadersTooLarge));
        }
        let chars = chars_of(line);
        if spells(&chars, "\r\n") || spells(&chars, "\n") {
            return Ok(true);
        }
        match position_of(&chars, ':') {
            Some(i) => {
                proof {
                    text::lemma_index_from(chars@, ':', 0);
                }
                let left = slice_subrange(&chars, 0, i);
                let right = slice_subrange(&chars, i + 1, chars.len());
                assert(left@ =~= chars@.take(i as int));
                assert(right@ =~= chars@.skip(i + 1));
                let name = lowered(trimmed(left));
                self.total = self.total + count;
                self.headers.insert(text_of(&name), text_of(trimmed(right)));
                Ok(false)
            },
            None => Err(TransferError::new(ErrorKind::InvalidHeader)),
        }
    }

    /// The headers that were read.
    pub fn into_headers(self) -> (r: Headers)
        ensures
            r@ == self.headers(),
    {
        self.headers
    }
}

/// The model of a list of texts.
pub open spec fn texts_of(texts: Seq<String>) -> Seq<Seq<char>> {
    texts.map_values(|text: String| text@)
}

/// Reads a header block from lines, and says at which line it ended.
pub fn read_headers(lines: &Vec<String>, start: usize) -> (r: Result<
    (Headers, usize),
    TransferError,
>)
    requires
        start <= lines@.len(),
    ensures
        match r {
            Ok((headers, next)) => next <= lines@.len() && read_block(
                0,
                Map::empty(),
                texts_of(lines@).skip(start as int),
            ) == Ok::<_, error::Fault>((headers@, texts_of(lines@).skip(next as int))),
            Err(error) => read_block(0, Map::empty(), texts_of(lines@).skip(start as int)) == Err::<
                (Map<Seq<char>, Seq<char>>, Seq<Seq<char>>),
                error::Fault,
            >(error@),
        },
{
    let mut reader = HeaderReader::new();
    let ghost all = texts_of(lines@);
    let mut i: usize = start;
    while i < lines.len()
        invariant
            start <= i <= lines@.len(),
            all == texts_of(lines@),
            reader.total() <= MAX_HEADER_BYTES,
            read_block(0, Map::empty(), all.skip(start as int)) == read_block(
                reader.total(),
                reader.headers(),
                all.skip(i as int),
            ),
        decreases lines@.len() - i,
    {
        proof {
            assert(all.skip(i as int).skip(1) =~= all.skip(i + 1));
            assert(all.skip(i as int)[0] == lines@[i as int]@);
        }
        match reader.accept(lines[i].as_str()) {
            Err(error) => return Err(error),
            Ok(complete) => if complete {
                return Ok((reader.into_headers(), i + 1));
            },
        }
        i += 1;
    }
    Err(TransferError::new(ErrorKind::ConnectionEnded))
}

// ---------------------------------------------------------------------------------------------
// Request lines

pub const TRANSFER_PATH: &'static str = "/v1/files";

pub const CHOOSE_FILE_PATH: &'static str = "/v1/choose-file";

/// What a request asks for.
#[derive(Clone, Copy, Debug, PartialEq, Eq, Structural)]
pub enum Route {
    Health,
    Upload,
    ChooseFile,
    Unknown,
}

/// What a method and a target ask for.
pub open spec fn route_of(method: Seq<char>, target: Seq<char>) -> Route {
    if method == "GET"@ && target == "/health"@ {
        Route::Health
    } else if method == "POST"@ && target == TRANSFER_PATH@ {
        Route::Upload
    } else if method == "POST"@ && target == CHOOSE_FILE_PATH@ {
        Route::ChooseFile
    } else {
        Route::Unknown
    }
}

/// The first two of the three words of a request line.
pub struct RequestLine {
    pub method: String,
    pub target: String,
}

/// The method and the target of a request line, which must have three words.
pub open spec fn request_of(line: Seq<char>) -> Result<(Seq<char>, Seq<char>), error::Fault> {
    let parts = text::words(line);
    if parts.len() == 3 {
        Ok((parts[0], parts[1]))
    } else {
        Err(error::fault(ErrorKind::InvalidRequestLine))
    }
}

pub fn parse_request_line(line: &str) -> (r: Result<RequestLine, TransferError>)
    ensures
        match r {
            Ok(request) => request_of(line@) == Ok::<_, error::Fault>(
                (request.method@, request.target@),
            ),
            Err(error) => request_of(line@) == Err::<(Seq<char>, Seq<char>), error::Fault>(error@),
        },
{
    let chars = chars_of(line);
    let parts = split_words(&chars);
    if parts.len() != 3 {
        return Err(TransferError::new(ErrorKind::InvalidRequestLine));
    }
    Ok(RequestLine { method: text_of(&parts[0]), target: text_of(&parts[1]) })
}

impl RequestLine {
    pub fn route(&self) -> (r: Route)
        ensures
            r == route_of(self.method@, self.target@),
    {
        let method = self.method.as_str();
        let target = self.target.as_str();
        if same_text(method, "GET") && same_text(target, "/health") {
            Route::Health
        } else if same_text(method, "POST") && same_text(target, TRANSFER_PATH) {
            Route::Upload
        } else if same_text(method, "POST") && same_text(target, CHOOSE_FILE_PATH) {
            Route::ChooseFile
        } else {
            Route::Unknown
        }
    }
}

// ---------------------------------------------------------------------------------------------
// Responses

/// The status line of a response.
pub open spec fn status_line(status: nat, reason: Seq<char>) -> Seq<char> {
    "HTTP/1.1 "@ + text::decimal(status) + " "@ + reason + "\r\n"@
}

pub fn status_line_text(status: u16, reason: &str) -> (r: String)
    ensures
        r@ == status_line(status as nat, reason@),
{
    let mut line = "HTTP/1.1 ".to_owned();
    let number = decimal_text(status as u128);
    line.append(number.as_str());
    line.append(" ");
    line.append(reason);
    line.append("\r\n");
    line
}

/// A response: its status and its body.
#[derive(Debug)]
pub struct HttpResponse {
    pub status: u16,
    pub body: Vec<u8>,
}

/// The status that a status line gives: its second word as a number.
pub open spec fn status_of(line: Seq<char>) -> Result<nat, error::Fault> {
    let parts = text::words(line);
    if parts.len() < 2 {
        Err(error::fault(ErrorKind::InvalidStatusLine))
    } else {
        match text::parse_number(parts[1], 65_535) {
            Some(status) => Ok(status),
            None => Err(
                error::fault_about(
                    ErrorKind::InvalidStatus,
                    text::number_problem(parts[1], 65_535),
                ),
            ),
        }
    }
}

pub fn parse_status_line(line: &str) -> (r: Result<u16, TransferError>)
    ensures
        match r {
            Ok(status) => status_of(line@) == Ok::<nat, error::Fault>(status as nat),
            Err(error) => status_of(line@) == Err::<nat, error::Fault>(error@),
        },
{
    let chars = chars_of(line);
    let parts = split_words(&chars);
    if parts.len() < 2 {
        return Err(TransferError::new(ErrorKind::InvalidStatusLine));
    }
    match number_of(&parts[1], 65_535) {
        Some(status) => Ok(status as u16),
        None => Err(
            TransferError::about(
                ErrorKind::InvalidStatus,
                number_problem_of(&parts[1], 65_535).to_owned(),
            ),
        ),
    }
}

/// The length of the body that headers announce, which may be at most `max`.
pub open spec fn body_length(headers: Map<Seq<char>, Seq<char>>, max: nat) -> Result<
    nat,
    error::Fault,
> {
    match lookup(headers, "content-length"@) {
        None => Err(error::fault(ErrorKind::NoContentLength)),
        Some(value) => match text::parse_number(value, usize::MAX as nat) {
            None => Err(
                error::fault_about(
                    ErrorKind::InvalidContentLength,
                    text::number_problem(value, usize::MAX as nat),
                ),
            ),
            Some(length) => if length > max {
                Err(error::fault(ErrorKind::ResponseTooLarge))
            } else {
                Ok(length)
            },
        },
    }
}

pub fn response_length(headers: &Headers, max: usize) -> (r: Result<usize, TransferError>)
    ensures
        match r {
            Ok(length) => body_length(headers@, max as nat) == Ok::<nat, error::Fault>(
                length as nat,
            ),
            Err(error) => body_length(headers@, max as nat) == Err::<nat, error::Fault>(error@),
        },
{
    let value = match headers.get("content-length") {
        Some(value) => chars_of(value),
        None => return Err(TransferError::new(ErrorKind::NoContentLength)),
    };
    match number_of(&value, usize::MAX as u64) {
        None => Err(
            TransferError::about(
                ErrorKind::InvalidContentLength,
                number_problem_of(&value, usize::MAX as u64).to_owned(),
            ),
        ),
        Some(length) => if length > max as u64 {
            Err(TransferError::new(ErrorKind::ResponseTooLarge))
        } else {
            Ok(length as usize)
        },
    }
}

/// The status and the headers that the lines of a response give, and the lines behind them.
pub open spec fn read_message(lines: Seq<Seq<char>>) -> Result<
    (nat, Map<Seq<char>, Seq<char>>, Seq<Seq<char>>),
    error::Fault,
> {
    if lines.len() == 0 {
        Err(error::fault(ErrorKind::ConnectionEnded))
    } else {
        match line_length(lines[0], MAX_HEADER_BYTES as nat) {
            Err(fault) => Err(fault),
            Ok(_) => match status_of(lines[0]) {
                Err(fault) => Err(fault),
                Ok(status) => match read_block(0, Map::empty(), lines.skip(1)) {
                    Err(fault) => Err(fault),
                    Ok((headers, rest)) => Ok((status, headers, rest)),
                },
            },
        }
    }
}

/// The status and the body length that the lines of a response give.
pub open spec fn response_of(lines: Seq<Seq<char>>, max: nat) -> Result<(nat, nat), error::Fault> {
    match read_message(lines) {
        Err(fault) => Err(fault),
        Ok((status, headers, _)) => match body_length(headers, max) {
            Err(fault) => Err(fault),
            Ok(length) => Ok((status, length)),
        },
    }
}

/// Where the reading of a response stands.
pub enum ResponseProgress {
    /// The status line is awaited.
    Started,
    /// Header lines are awaited.
    Reading { status: nat, total: nat, headers: Map<Seq<char>, Seq<char>> },
}

/// The status and the body length that the lines give with which the reading of a response goes on.
pub open spec fn response_from(
    progress: ResponseProgress,
    lines: Seq<Seq<char>>,
    max: nat,
) -> Result<(nat, nat), error::Fault> {
    match progress {
        ResponseProgress::Started => response_of(lines, max),
        ResponseProgress::Reading { status, total, headers } => match read_block(
            total,
            headers,
            lines,
        ) {
            Err(fault) => Err(fault),
            Ok((headers, _)) => match body_length(headers, max) {
                Err(fault) => Err(fault),
                Ok(length) => Ok((status, length)),
            },
        },
    }
}

/// The reading of a response, line by line.
pub struct ResponseReader {
    status: Option<u16>,
    reader: HeaderReader,
    max: usize,
}

impl ResponseReader {
    pub closed spec fn progress(&self) -> ResponseProgress {
        match self.status {
            None => ResponseProgress::Started,
            Some(status) => ResponseProgress::Reading {
                status: status as nat,
                total: self.reader.total(),
                headers: self.reader.headers(),
            },
        }
    }

    /// The longest body that is read.
    pub closed spec fn max(&self) -> nat {
        self.max as nat
    }

    pub closed spec fn well_formed(&self) -> bool {
        &&& self.reader.total() <= MAX_HEADER_BYTES
        &&& self.status is None ==> self.reader.total() == 0 && self.reader.headers() == Map::<
            Seq<char>,
            Seq<char>,
        >::empty()
    }

    pub fn new(max: usize) -> (r: Self)
        ensures
            r.well_formed(),
            r.max() == max,
            r.progress() == ResponseProgress::Started,
    {
        ResponseReader { status: None, reader: HeaderReader::new(), max }
    }

    /// Takes the next line; gives the status and the body length once the head is complete. Whatever
    /// the lines that follow, they mean the same to what is left of the reading.
    pub fn accept(&mut self, line: &str) -> (r: Result<Option<(u16, usize)>, TransferError>)
        requires
            old(self).well_formed(),
        ensures
            final(self).max() == old(self).max(),
            r is Ok ==> final(self).well_formed(),
            forall|rest: Seq<Seq<char>>|
                response_from(old(self).progress(), #[trigger] (seq![line@] + rest), old(self).max())
                    == match r {
                    Ok(None) => response_from(final(self).progress(), rest, old(self).max()),
                    Ok(Some((status, length))) => Ok((status as nat, length as nat)),
                    Err(error) => Err(error@),
                },
    {
        proof {
            assert forall|rest: Seq<Seq<char>>|
                (#[trigger] (seq![line@] + rest)).skip(1) == rest && (seq![line@] + rest)[0]
                    == line@ by {
                assert((seq![line@] + rest).skip(1) =~= rest);
            }
        }
        match self.status {
            None => {
                match read_limited_line(line, MAX_HEADER_BYTES) {
                    Err(error) => return Err(error),
                    Ok(_) => {},
                }
                match parse_status_line(line) {
                    Err(error) => Err(error),
                    Ok(status) => {
                        self.status = Some(status);
                        Ok(None)
                    },
                }
            },
            Some(status) => match self.reader.accept(line) {
                Err(error) => Err(error),
                Ok(complete) => if complete {
                    match response_length(&self.reader.headers, self.max) {
                        Err(error) => Err(error),
                        Ok(length) => Ok(Some((status, length))),
                    }
                } else {
                    Ok(None)
                },
            },
        }
    }
}

/// Reads the status and the body length of a response from its lines.
pub fn read_http_response(lines: &Vec<String>, max: usize) -> (r: Result<
    (u16, usize),
    TransferError,
>)
    ensures
        match r {
            Ok((status, length)) => response_of(texts_of(lines@), max as nat) == Ok::<
                _,
                error::Fault,
            >((status as nat, length as nat)),
            Err(error) => response_of(texts_of(lines@), max as nat) == Err::<
                (nat, nat),
                error::Fault,
            >(error@),
        },
{
    let mut reader = ResponseReader::new(max);
    let ghost all = texts_of(lines@);
    assert(all.skip(0) =~= all);
    let mut i: usize = 0;
    while i < lines.len()
        invariant
            i <= lines@.len(),
            all == texts_of(lines@),
            reader.well_formed(),
            reader.max() == max,
            response_of(all, max as nat) == response_from(
                reader.progress(),
                all.skip(i as int),
                max as nat,
            ),
        decreases lines@.len() - i,
    {
        assert(all.skip(i as int) =~= seq![lines@[i as int]@] + all.skip(i + 1));
        match reader.accept(lines[i].as_str()) {
            Err(error) => return Err(error),
            Ok(Some(response)) => return Ok(response),
            Ok(None) => {},
        }
        i += 1;
    }
    Err(TransferError::new(ErrorKind::ConnectionEnded))
}

// ---------------------------------------------------------------------------------------------
// Laws

/// A field that survives being written and read: no colon or line feed in the name, no line feed
/// in the value, no white space around either.
pub open spec fn is_plain_field(name: Seq<char>, value: Seq<char>) -> bool {
    &&& !name.contains(':')
    &&& !name.contains('\n')
    &&& !value.contains('\n')
    &&& text::trim(name) == name
    &&& text::trim(value) == value
}

/// Fields under their names in lower case.
pub open spec fn lowered_fields(fields: Seq<(Seq<char>, Seq<char>)>) -> Seq<
    (Seq<char>, Seq<char>),
> {
    fields.map_values(|field: (Seq<char>, Seq<char>)| (text::lower(field.0), field.1))
}

/// The bytes of a concatenation are those of its parts.
pub proof fn lemma_encode_concat(a: Seq<char>, b: Seq<char>)
    ensures
        encode_utf8(a + b) == encode_utf8(a) + encode_utf8(b),
    decreases a.len(),
{
    if a.len() == 0 {
        assert(a + b =~= b);
        assert(encode_utf8(a) + encode_utf8(b) =~= encode_utf8(b));
    } else {
        lemma_encode_concat(a.drop_first(), b);
        assert((a + b).drop_first() =~= a.drop_first() + b);
        assert(encode_utf8(a + b) =~= encode_utf8(a) + encode_utf8(b));
    }
}

/// A text that is trimmed already has no white space at its ends.
proof fn lemma_trimmed_ends(s: Seq<char>)
    requires
        text::trim(s) == s,
        s.len() > 0,
    ensures
        !text::is_space(s[0]),
        !text::is_space(s.last()),
{
    text::lemma_trim_ends(s);
}

/// A written field is read back, under its name in lower case.
pub proof fn lemma_field_line_is_read_back(name: Seq<char>, value: Seq<char>)
    requires
        is_plain_field(name, value),
    ensures
        parse_field(field_line(name, value)) == Some((text::lower(name), value)),
        !is_end_line(field_line(name, value)),
        field_line(name, value).last() == '\n',
        !field_line(name, value).drop_last().contains('\n'),
{
    reveal_strlit(": ");
    reveal_strlit("\r\n");
    reveal_strlit("\n");
    let line = field_line(name, value);
    let n = name.len() as int;
    assert(line[n] == ':');
    assert forall|j: int| 0 <= j < n implies #[trigger] line[j] != ':' by {
        assert(name.contains(name[j]));
    }
    text::lemma_first_index_is(line, ':', n);
    assert(line.take(n) =~= name);
    let front = seq![' '];
    let back = "\r\n"@;
    assert(line.skip(n + 1) =~= front + value + back);
    if value.len() > 0 {
        lemma_trimmed_ends(value);
    }
    text::lemma_trim_padding(front, value, back);
    if is_end_line(line) {
        assert(line[n] == ':');
    }
    assert forall|j: int| 0 <= j < line.len() - 1 implies #[trigger] line[j] != '\n' by {
        if j < n {
            assert(name.contains(name[j]));
        } else if n + 2 <= j < n + 2 + value.len() {
            assert(line[j] == value[j - n - 2]);
            assert(value.contains(value[j - n - 2]));
        }
    }
    assert(!line.drop_last().contains('\n'));
}

/// Reading lines from inside a block: the fields that follow are added, and the lines behind the
/// block are left.
proof fn lemma_block_from(
    total: nat,
    fields: Seq<(Seq<char>, Seq<char>)>,
    done: int,
    rest: Seq<char>,
)
    requires
        0 <= done <= fields.len(),
        forall|i: int|
            0 <= i < fields.len() ==> is_plain_field((#[trigger] fields[i]).0, fields[i].1),
        total + encode_utf8(header_block(fields.skip(done))).len() <= MAX_HEADER_BYTES,
    ensures
        read_block(
            total,
            header_map(lowered_fields(fields).take(done)),
            text::lines(header_block(fields.skip(done)) + rest),
        ) == Ok::<_, error::Fault>((header_map(lowered_fields(fields)), text::lines(rest))),
    decreases fields.len() - done,
{
    let left = fields.skip(done);
    let names = lowered_fields(fields);
    reveal_strlit("\r\n");
    if done == fields.len() {
        assert(left =~= seq![]);
        let end = "\r\n"@;
        assert(header_block(left) =~= end);
        assert(!end.drop_last().contains('\n'));
        text::lemma_lines_first(end, rest);
        let all = text::lines(end + rest);
        assert(all[0] == end);
        assert(all.skip(1) =~= text::lines(rest));
        assert(encode_utf8(end).len() > 0) by {
            is_ascii_chars_encode_utf8(end);
        }
        assert(names.take(done) =~= names);
    } else {
        let (name, value) = fields[done];
        assert(left[0] == fields[done]);
        assert(is_plain_field(name, value));
        let line = field_line(name, value);
        lemma_field_line_is_read_back(name, value);
        assert(left.skip(1) =~= fields.skip(done + 1));
        let more = header_block(fields.skip(done + 1));
        assert(header_block(left) =~= line + more);
        lemma_encode_concat(line, more);
        text::lemma_lines_first(line, more + rest);
        assert(header_block(left) + rest =~= line + (more + rest));
        let all = text::lines(line + (more + rest));
        assert(all[0] == line);
        assert(all.skip(1) =~= text::lines(more + rest));
        let count = encode_utf8(line).len();
        lemma_encoded_is_nonempty(line);
        assert(names.take(done + 1).drop_last() =~= names.take(done));
        assert(names.take(done + 1).last() == (text::lower(name), value));
        lemma_block_from(total + count, fields, done + 1, rest);
    }
}

/// A header block is read back as it was written: each field under its name in lower case, and
/// nothing behind the block is touched.
pub proof fn law_header_block_is_read_back(
    fields: Seq<(Seq<char>, Seq<char>)>,
    rest: Seq<char>,
)
    requires
        forall|i: int|
            0 <= i < fields.len() ==> is_plain_field((#[trigger] fields[i]).0, fields[i].1),
        encode_utf8(header_block(fields)).len() <= MAX_HEADER_BYTES,
    ensures
        read_block(0, Map::empty(), text::lines(header_block(fields) + rest)) == Ok::<
            _,
            error::Fault,
        >((header_map(lowered_fields(fields)), text::lines(rest))),
{
    assert(fields.skip(0) =~= fields);
    assert(lowered_fields(fields).take(0) =~= seq![]);
    lemma_block_from(0, fields, 0, rest);
}

/// A field with a name without white space and colons, and a value on one line without white space
/// at its ends, survives being written and read.
pub proof fn lemma_plain_field(name: Seq<char>, value: Seq<char>)
    requires
        text::all_in(name, |c: char| c != ':' && !text::is_space(c)),
        text::all_in(value, |c: char| c != '\n'),
        value.len() > 0 ==> !text::is_space(value[0]) && !text::is_space(value.last()),
    ensures
        is_plain_field(name, value),
{
    assert forall|i: int| 0 <= i < name.len() implies #[trigger] name[i] != ':' && name[i]
        != '\n' && !text::is_space(name[i]) by {}
    if name.len() > 0 {
        assert(!text::is_space(name[0]) && !text::is_space(name.last()));
        text::lemma_trim_fixed(name);
    } else {
        text::lemma_trim_blank(name);
        assert(name =~= seq![]);
    }
    if value.len() > 0 {
        text::lemma_trim_fixed(value);
    } else {
        text::lemma_trim_blank(value);
        assert(value =~= seq![]);
    }
}

/// The value of a name is the one that was given last.
pub proof fn lemma_lookup(fields: Seq<(Seq<char>, Seq<char>)>, at: int)
    requires
        0 <= at < fields.len(),
        forall|j: int| at < j < fields.len() ==> (#[trigger] fields[j]).0 != fields[at].0,
    ensures
        lookup(header_map(fields), fields[at].0) == Some(fields[at].1),
    decreases fields.len(),
{
    if at < fields.len() - 1 {
        assert(fields[fields.len() - 1].0 != fields[at].0);
        lemma_lookup(fields.drop_last(), at);
    }
}

/// A name that was not given has no value.
pub proof fn lemma_lookup_none(fields: Seq<(Seq<char>, Seq<char>)>, name: Seq<char>)
    requires
        forall|j: int| 0 <= j < fields.len() ==> (#[trigger] fields[j]).0 != name,
    ensures
        lookup(header_map(fields), name) is None,
    decreases fields.len(),
{
    if fields.len() > 0 {
        assert(fields[fields.len() - 1].0 != name);
        lemma_lookup_none(fields.drop_last(), name);
    }
}

/// The size of a block of short ASCII fields.
pub proof fn lemma_block_size(fields: Seq<(Seq<char>, Seq<char>)>, most: nat)
    requires
        forall|i: int|
            0 <= i < fields.len() ==> is_ascii_chars((#[trigger] fields[i]).0) && is_ascii_chars(
                fields[i].1,
            ) && fields[i].0.len() + fields[i].1.len() <= most,
    ensures
        encode_utf8(header_block(fields)).len() <= fields.len() * (most + 4) + 2,
    decreases fields.len(),
{
    reveal_strlit(": ");
    reveal_strlit("\r\n");
    if fields.len() == 0 {
        assert(header_block(fields) =~= "\r\n"@);
        is_ascii_chars_encode_utf8("\r\n"@);
    } else {
        let rest = fields.skip(1);
        let line = field_line(fields[0].0, fields[0].1);
        assert forall|i: int| 0 <= i < rest.len() implies is_ascii_chars((#[trigger] rest[i]).0)
            && is_ascii_chars(rest[i].1) && rest[i].0.len() + rest[i].1.len() <= most by {
            assert(rest[i] == fields[i + 1]);
        }
        lemma_block_size(rest, most);
        assert(header_block(fields) =~= line + header_block(rest));
        lemma_encode_concat(line, header_block(rest));
        assert(is_ascii_chars(line)) by {
            assert(is_ascii_chars(fields[0].0) && is_ascii_chars(fields[0].1));
        }
        is_ascii_chars_encode_utf8(line);
        assert(fields.len() * (most + 4) == rest.len() * (most + 4) + (most + 4))
            by (nonlinear_arith)
            requires
                fields.len() == rest.len() + 1,
        ;
    }
}

/// A status line is read back.
pub proof fn law_status_line_is_read_back(status: nat, reason: Seq<char>)
    requires
        status <= 65_535,
    ensures
        status_of(status_line(status, reason)) == Ok::<nat, error::Fault>(status),
{
    reveal_strlit("HTTP/1.1 ");
    reveal_strlit(" ");
    reveal_strlit("\r\n");
    let line = status_line(status, reason);
    let word = seq!['H', 'T', 'T', 'P', '/', '1', '.', '1'];
    let number = text::decimal(status);
    let tail = seq![' '] + reason + "\r\n"@;
    text::lemma_decimal_digits(status);
    assert(line =~= word + (seq![' '] + (number + tail)));
    text::lemma_words_first(word, seq![' '] + (number + tail));
    text::lemma_words_space(' ', number + tail);
    assert forall|i: int| 0 <= i < number.len() implies !text::is_space(#[trigger] number[i]) by {
        assert(text::is_digit(number[i]));
    }
    text::lemma_words_first(number, tail);
    assert(text::words(line)[1] == number);
    text::law_decimal_is_read_back(status, 65_535);
}

/// A response is read back: its status and its headers, and nothing behind them is touched.
pub proof fn law_message_is_read_back(
    status: nat,
    reason: Seq<char>,
    fields: Seq<(Seq<char>, Seq<char>)>,
    body: Seq<char>,
)
    requires
        status <= 65_535,
        !reason.contains('\n'),
        forall|i: int|
            0 <= i < fields.len() ==> is_plain_field((#[trigger] fields[i]).0, fields[i].1),
        encode_utf8(status_line(status, reason)).len() <= MAX_HEADER_BYTES,
        encode_utf8(header_block(fields)).len() <= MAX_HEADER_BYTES,
    ensures
        read_message(text::lines(status_line(status, reason) + (header_block(fields) + body)))
            == Ok::<_, error::Fault>(
            (status, header_map(lowered_fields(fields)), text::lines(body)),
        ),
{
    let line = status_line(status, reason);
    let rest = header_block(fields) + body;
    lemma_status_line_is_one_line(status, reason);
    text::lemma_lines_first(line, rest);
    let all = text::lines(line + rest);
    assert(all[0] == line);
    assert(all.skip(1) =~= text::lines(rest));
    lemma_encoded_is_nonempty(line);
    law_status_line_is_read_back(status, reason);
    law_header_block_is_read_back(fields, body);
}

/// The length that the headers of a response announce is read back.
pub proof fn law_response_is_read_back(
    status: nat,
    reason: Seq<char>,
    fields: Seq<(Seq<char>, Seq<char>)>,
    length: nat,
    max: nat,
    body: Seq<char>,
)
    requires
        status <= 65_535,
        !reason.contains('\n'),
        forall|i: int|
            0 <= i < fields.len() ==> is_plain_field((#[trigger] fields[i]).0, fields[i].1),
        lookup(header_map(lowered_fields(fields)), "content-length"@) == Some(
            text::decimal(length),
        ),
        length <= max <= usize::MAX,
        encode_utf8(status_line(status, reason)).len() <= MAX_HEADER_BYTES,
        encode_utf8(header_block(fields)).len() <= MAX_HEADER_BYTES,
    ensures
        response_of(
            text::lines(status_line(status, reason) + (header_block(fields) + body)),
            max,
        ) == Ok::<_, error::Fault>((status, length)),
{
    law_message_is_read_back(status, reason, fields, body);
    text::law_decimal_is_read_back(length, usize::MAX as nat);
}

/// A text that is not empty takes bytes.
pub proof fn lemma_encoded_is_nonempty(s: Seq<char>)
    requires
        s.len() > 0,
    ensures
        encode_utf8(s).len() > 0,
{
    encode_utf8_decode_utf8(s);
    assert(encode_utf8(s).len() == 0 ==> decode_utf8(encode_utf8(s)) =~= seq![]);
}

proof fn lemma_status_line_is_one_line(status: nat, reason: Seq<char>)
    requires
        !reason.contains('\n'),
    ensures
        status_line(status, reason).len() > 0,
        status_line(status, reason).last() == '\n',
        !status_line(status, reason).drop_last().contains('\n'),
{
    reveal_strlit("HTTP/1.1 ");
    reveal_strlit(" ");
    reveal_strlit("\r\n");
    let line = status_line(status, reason);
    let number = text::decimal(status);
    text::lemma_decimal_digits(status);
    let n = number.len();
    assert forall|j: int| 0 <= j < line.len() - 1 implies #[trigger] line[j] != '\n' by {
        if 9 <= j < 9 + n {
            assert(line[j] == number[j - 9]);
            assert(text::is_digit(number[j - 9]));
        } else if 10 + n <= j < 10 + n + reason.len() {
            assert(line[j] == reason[j - 10 - n]);
            assert(reason.contains(reason[j - 10 - n]));
        }
    }
}

/// A line that was read counts its bytes; nothing read means that the connection ended, and more
/// than the limit is too much.
pub proof fn law_lines_are_limited(line: Seq<char>, limit: nat)
    ensures
        encode_utf8(line).len() == 0 ==> line_length(line, limit) == Err::<nat, error::Fault>(
            error::fault(ErrorKind::ConnectionEnded),
        ),
        0 < encode_utf8(line).len() <= limit ==> line_length(line, limit) == Ok::<
            nat,
            error::Fault,
        >(encode_utf8(line).len()),
        encode_utf8(line).len() > 0 && encode_utf8(line).len() > limit ==> line_length(line, limit)
            == Err::<nat, error::Fault>(error::fault(ErrorKind::LineTooLarge)),
{
}

/// A header is its name, a colon and its value, with white space around either or not; the name is
/// taken in lower case. A line without a colon is no header.
pub proof fn law_headers_are_name_and_value(
    before: (Seq<char>, Seq<char>),
    name: Seq<char>,
    around: (Seq<char>, Seq<char>),
    value: Seq<char>,
)
    requires
        text::all_in(before.0, |c: char| text::is_space(c)),
        text::all_in(before.1, |c: char| text::is_space(c)),
        text::all_in(around.0, |c: char| text::is_space(c)),
        text::all_in(around.1, |c: char| text::is_space(c)),
        !name.contains(':'),
        name.len() > 0 ==> !text::is_space(name[0]) && !text::is_space(name.last()),
        value.len() > 0 ==> !text::is_space(value[0]) && !text::is_space(value.last()),
    ensures
        parse_field((before.0 + name + before.1).push(':') + (around.0 + value + around.1)) == Some(
            (text::lower(name), value),
        ),
        parse_field(name) is None,
{
    let left = before.0 + name + before.1;
    let right = around.0 + value + around.1;
    let line = left.push(':') + right;
    let n = left.len() as int;
    assert(line[n] == ':');
    assert forall|j: int| 0 <= j < n implies #[trigger] line[j] != ':' by {
        if j < before.0.len() {
            assert(text::is_space(before.0[j]));
            assert(line[j] == before.0[j]);
        } else if j < before.0.len() + name.len() {
            assert(line[j] == name[j - before.0.len()]);
            assert(name.contains(name[j - before.0.len()]));
        } else {
            assert(text::is_space(before.1[j - before.0.len() - name.len()]));
            assert(line[j] == before.1[j - before.0.len() - name.len()]);
        }
    }
    text::lemma_first_index_is(line, ':', n);
    assert(line.take(n) =~= left);
    assert(line.skip(n + 1) =~= right);
    text::lemma_trim_padding(before.0, name, before.1);
    text::lemma_trim_padding(around.0, value, around.1);
    text::lemma_index_from(name, ':', 0);
    if text::first_index(name, ':') is Some {
        assert(name.contains(name[text::first_index(name, ':')->0]));
    }
}

/// A header that is given again replaces the one before; a block ends with an empty line, and is
/// refused where it is larger than sixty-four kibibytes or holds a line that is no header.
pub proof fn law_header_lines_are_taken_in_turn(
    total: nat,
    headers: Map<Seq<char>, Seq<char>>,
    line: Seq<char>,
    name: Seq<char>,
    value: Seq<char>,
    other: Seq<char>,
)
    requires
        0 < encode_utf8(line).len(),
        encode_utf8(line).len() <= 65_536,
    ensures
        total + encode_utf8(line).len() > 65_536 ==> read_line_step(total, headers, line) == (
        Progress::Refused { fault: error::fault(ErrorKind::HeadersTooLarge) }),
        total + encode_utf8(line).len() <= 65_536 && (line == "\r\n"@ || line == "\n"@)
            ==> read_line_step(total, headers, line) == (Progress::Complete { headers }),
        total + encode_utf8(line).len() <= 65_536 && line != "\r\n"@ && line != "\n"@
            && parse_field(line) is None ==> read_line_step(total, headers, line) == (
        Progress::Refused { fault: error::fault(ErrorKind::InvalidHeader) }),
        total + encode_utf8(line).len() <= 65_536 && line != "\r\n"@ && line != "\n"@
            && parse_field(line) == Some((name, value)) ==> (read_line_step(
            total,
            headers,
            line,
        ) matches Progress::Reading { total: counted, headers: kept } && counted == total
            + encode_utf8(line).len() && lookup(kept, name) == Some(value) && (other != name
            ==> lookup(kept, other) == lookup(headers, other))),
{
}

/// Three requests are known, each by its method and its target; any other is unknown.
pub proof fn law_three_requests_are_known(method: Seq<char>, target: Seq<char>)
    ensures
        route_of("GET"@, "/health"@) == Route::Health,
        route_of("POST"@, "/v1/files"@) == Route::Upload,
        route_of("POST"@, "/v1/choose-file"@) == Route::ChooseFile,
        !(method == "GET"@ && target == "/health"@) && !(method == "POST"@ && target
            == "/v1/files"@) && !(method == "POST"@ && target == "/v1/choose-file"@) ==> route_of(
            method,
            target,
        ) == Route::Unknown,
{
    reveal_strlit("GET");
    reveal_strlit("POST");
    reveal_strlit("/v1/files");
    reveal_strlit("/v1/choose-file");
    assert("GET"@.len() == 3 && "POST"@.len() == 4);
    assert("/v1/files"@.len() == 9 && "/v1/choose-file"@.len() == 15);
}

/// A request line has three words, of which the first two count; a status line has at least two, of
/// which the second is the status.
pub proof fn law_first_lines_are_made_of_words(line: Seq<char>, status: nat)
    ensures
        text::words(line).len() == 3 ==> request_of(line) == Ok::<_, error::Fault>(
            (text::words(line)[0], text::words(line)[1]),
        ),
        text::words(line).len() != 3 ==> request_of(line) == Err::<
            (Seq<char>, Seq<char>),
            error::Fault,
        >(error::fault(ErrorKind::InvalidRequestLine)),
        text::words(line).len() < 2 ==> status_of(line) == Err::<nat, error::Fault>(
            error::fault(ErrorKind::InvalidStatusLine),
        ),
        text::words(line).len() >= 2 && text::parse_number(text::words(line)[1], 65_535) == Some(
            status,
        ) ==> status_of(line) == Ok::<nat, error::Fault>(status),
        text::words(line).len() >= 2 && text::parse_number(text::words(line)[1], 65_535) is None
            ==> (status_of(line) matches Err(fault) && fault.kind == ErrorKind::InvalidStatus),
{
}

/// The body is as long as the headers say, which they must, and not longer than the limit.
pub proof fn law_bodies_are_as_long_as_announced(
    headers: Map<Seq<char>, Seq<char>>,
    length: nat,
    max: nat,
)
    requires
        length <= usize::MAX,
    ensures
        lookup(headers, "content-length"@) is None ==> body_length(headers, max) == Err::<
            nat,
            error::Fault,
        >(error::fault(ErrorKind::NoContentLength)),
        lookup(headers, "content-length"@) == Some(text::decimal(length)) && length <= max
            ==> body_length(headers, max) == Ok::<nat, error::Fault>(length),
        lookup(headers, "content-length"@) == Some(text::decimal(length)) && length > max
            ==> body_length(headers, max) == Err::<nat, error::Fault>(
            error::fault(ErrorKind::ResponseTooLarge),
        ),
        lookup(headers, "content-length"@) matches Some(value) ==> (text::parse_number(
            value,
            usize::MAX as nat,
        ) is None ==> (body_length(headers, max) matches Err(fault) && fault.kind
            == ErrorKind::InvalidContentLength)),
{
    text::law_decimal_is_read_back(length, usize::MAX as nat);
}

/// A field is written as its name, a colon, a blank and its value on a line of its own, and a block
/// of fields ends with an empty line.
pub proof fn law_fields_are_written_line_by_line(
    name: Seq<char>,
    value: Seq<char>,
    fields: Seq<(Seq<char>, Seq<char>)>,
)
    ensures
        header_block(seq![]) == "\r\n"@,
        header_block(seq![(name, value)] + fields) == name + ": "@ + value + "\r\n"@
            + header_block(fields),
{
    let none: Seq<(Seq<char>, Seq<char>)> = seq![];
    assert(field_lines(none) + "\r\n"@ =~= "\r\n"@);
    let more = seq![(name, value)] + fields;
    assert(more.skip(1) =~= fields);
    assert(more[0] == (name, value));
    assert(header_block(more) =~= name + ": "@ + value + "\r\n"@ + header_block(fields));
}

/// A list of texts has as many as there are, each at its place.
pub proof fn law_lists_keep_their_places(texts: Seq<String>, fields: Seq<Field>, i: int)
    ensures
        texts_of(texts).len() == texts.len(),
        0 <= i < texts.len() ==> texts_of(texts)[i] == texts[i]@,
        fields_of(fields).len() == fields.len(),
        0 <= i < fields.len() ==> fields_of(fields)[i] == (fields[i].name@, fields[i].value@),
{
}

/// A response is read line by line, and it is the same response wherever the reading stands: a line
/// either refuses it, completes it, or leaves it to the lines that follow.
pub proof fn law_responses_are_read_line_by_line(
    status: nat,
    total: nat,
    headers: Map<Seq<char>, Seq<char>>,
    line: Seq<char>,
    rest: Seq<Seq<char>>,
    max: nat,
)
    ensures
        response_from(ResponseProgress::Started, rest, max) == response_of(rest, max),
        ({
            let begun = ResponseProgress::Reading { status, total, headers };
            let read = response_from(begun, seq![line] + rest, max);
            match read_line_step(total, headers, line) {
                Progress::Refused { fault } => read == Err::<(nat, nat), error::Fault>(fault),
                Progress::Complete { headers } => read == match body_length(headers, max) {
                    Ok(length) => Ok::<(nat, nat), error::Fault>((status, length)),
                    Err(fault) => Err(fault),
                },
                Progress::Reading { total, headers } => read == response_from(
                    ResponseProgress::Reading { status, total, headers },
                    rest,
                    max,
                ),
            }
        }),
{
    let all = seq![line] + rest;
    assert(all[0] == line);
    assert(all.skip(1) =~= rest);
}

/// A response begins with its status line, which is limited as every line is; lines that end too
/// early are told.
pub proof fn law_responses_begin_with_a_status(
    progress: ResponseProgress,
    line: Seq<char>,
    rest: Seq<Seq<char>>,
    max: nat,
    status: nat,
    fault: error::Fault,
)
    requires
        encode_utf8(line).len() > 0,
    ensures
        response_from(progress, Seq::empty(), max) == Err::<(nat, nat), error::Fault>(
            error::fault(ErrorKind::ConnectionEnded),
        ),
        encode_utf8(line).len() > 65_536 ==> response_of(seq![line] + rest, max) == Err::<
            (nat, nat),
            error::Fault,
        >(error::fault(ErrorKind::LineTooLarge)),
        encode_utf8(line).len() <= 65_536 && status_of(line) == Err::<nat, error::Fault>(fault)
            ==> response_of(seq![line] + rest, max) == Err::<(nat, nat), error::Fault>(fault),
        encode_utf8(line).len() <= 65_536 && status_of(line) == Ok::<nat, error::Fault>(status)
            ==> response_of(seq![line] + rest, max) == response_from(
            ResponseProgress::Reading { status, total: 0, headers: Map::empty() },
            rest,
            max,
        ),
{
    let all = seq![line] + rest;
    assert(all[0] == line);
    assert(all.skip(1) =~= rest);
}

} // verus!
