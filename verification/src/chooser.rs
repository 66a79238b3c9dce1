//! Files that are chosen on the receiver's side and sent back.
use crate::digest;
use crate::encoding;
use crate::encoding::{byte_length, encode_header_value, text_from_bytes};
use crate::error;
use crate::error::{ErrorKind, TransferError};
use crate::filename;
use crate::filename::clean_filename;
use crate::http;
use crate::http::{field, head_text, Field};
use crate::protocol;
use crate::receiver;
use crate::text;
use crate::text::{chars_of, decimal_text, includes, same_text, split_on, text_of, trimmed};
use vstd::prelude::*;
use vstd::utf8::*;

verus! {

// ---------------------------------------------------------------------------------------------
// What the picker gives

/// The picker exists on one system only.
pub open spec fn picker_system(os: Seq<char>) -> Result<(), error::Fault> {
    if os == "macos"@ {
        Ok(())
    } else {
        Err(error::fault(ErrorKind::PickerNeedsMacOs))
    }
}

pub fn check_picker_system(os: &str) -> (r: Result<(), TransferError>)
    ensures
        error::unit_result(r) == picker_system(os@),
{
    if same_text(os, "macos") {
        Ok(())
    } else {
        Err(TransferError::new(ErrorKind::PickerNeedsMacOs))
    }
}

/// The words of the picker's failure: that it was cancelled, or what it said.
pub open spec fn picker_fault(said: Seq<char>) -> error::Fault {
    let detail = text::trim(said);
    if text::has_text(detail, "User canceled"@) || text::has_text(detail, "-128"@) {
        error::fault(ErrorKind::PickerCancelled)
    } else if detail.len() == 0 {
        error::fault_about(ErrorKind::PickerFailed, "unknown error"@)
    } else {
        error::fault_about(ErrorKind::PickerFailed, detail)
    }
}

/// What a failure of the picker means.
pub fn picker_failure(said: &str) -> (r: TransferError)
    ensures
        r@ == picker_fault(said@),
{
    let chars = chars_of(said);
    let detail = trimmed(&chars);
    let cancelled = chars_of("User canceled");
    let number = chars_of("-128");
    if includes(detail, &cancelled) || includes(detail, &number) {
        TransferError::new(ErrorKind::PickerCancelled)
    } else if detail.len() == 0 {
        TransferError::about(ErrorKind::PickerFailed, "unknown error".to_owned())
    } else {
        TransferError::about(ErrorKind::PickerFailed, text_of(detail))
    }
}

/// What the picker wrote, without one line feed at its end.
pub open spec fn without_line_feed(output: Seq<u8>) -> Seq<u8> {
    if output.len() > 0 && output.last() == 10 {
        output.drop_last()
    } else {
        output
    }
}

/// The paths that the picker gives: they are separated by null characters.
pub open spec fn picked_paths(output: Seq<u8>) -> Result<Seq<Seq<char>>, error::Fault> {
    let bytes = without_line_feed(output);
    if valid_utf8(bytes) {
        Ok(text::split(decode_utf8(bytes), '\0'))
    } else {
        Err(error::fault_about(ErrorKind::PickerNotUtf8, encoding::utf8_problem(bytes)))
    }
}

/// Reads the paths that the picker wrote.
pub fn picker_paths(output: Vec<u8>) -> (r: Result<Vec<String>, TransferError>)
    ensures
        match r {
            Ok(paths) => picked_paths(output@) == Ok::<_, error::Fault>(http::texts_of(paths@)),
            Err(error) => picked_paths(output@) == Err::<Seq<Seq<char>>, error::Fault>(error@),
        },
{
    let mut bytes = output;
    if bytes.len() > 0 && bytes[bytes.len() - 1] == 10 {
        let _last = bytes.pop();
    }
    assert(bytes@ =~= without_line_feed(output@));
    let text = match text_from_bytes(bytes, ErrorKind::PickerNotUtf8) {
        Ok(text) => text,
        Err(error) => return Err(error),
    };
    let chars = chars_of(text.as_str());
    let pieces = split_on(&chars, '\0');
    let mut paths: Vec<String> = Vec::new();
    let mut i: usize = 0;
    while i < pieces.len()
        invariant
            i <= pieces@.len(),
            paths@.len() == i,
            forall|j: int| 0 <= j < i ==> (#[trigger] paths@[j])@ == pieces@[j]@,
        decreases pieces@.len() - i,
    {
        paths.push(text_of(&pieces[i]));
        i += 1;
    }
    assert(http::texts_of(paths@) =~= text::split(text@, '\0'));
    Ok(paths)
}

/// How chosen files are sent.
#[derive(Clone, Copy, Debug, PartialEq, Eq, Structural)]
pub enum Delivery {
    /// One file is the whole body.
    Single,
    /// Several files share one body.
    Batch,
}

/// How so many chosen files are sent.
pub open spec fn delivery_of(count: nat) -> Result<Delivery, error::Fault> {
    if count == 0 {
        Err(error::fault(ErrorKind::NoFileChosen))
    } else if count == 1 {
        Ok(Delivery::Single)
    } else {
        Ok(Delivery::Batch)
    }
}

pub fn delivery(count: usize) -> (r: Result<Delivery, TransferError>)
    ensures
        match r {
            Ok(delivery) => delivery_of(count as nat) == Ok::<Delivery, error::Fault>(delivery),
            Err(error) => delivery_of(count as nat) == Err::<Delivery, error::Fault>(error@),
        },
{
    if count == 0 {
        Err(TransferError::new(ErrorKind::NoFileChosen))
    } else if count == 1 {
        Ok(Delivery::Single)
    } else {
        Ok(Delivery::Batch)
    }
}

// ---------------------------------------------------------------------------------------------
// Files that are sent

/// What is known of a chosen path once it is open.
pub struct ChosenFile<'a> {
    /// The path as it is shown.
    pub shown: &'a str,
    pub is_file: bool,
    pub length: u64,
    /// The final component of the path, where it is UTF-8.
    pub name: Option<&'a str>,
}

/// The name under which a chosen file is sent: it must be a regular file within the limit, with a
/// clean name.
pub open spec fn sent_name(
    shown: Seq<char>,
    is_file: bool,
    length: nat,
    name: Option<Seq<char>>,
    max: nat,
) -> Result<Seq<char>, error::Fault> {
    if !is_file {
        Err(error::fault_about(ErrorKind::ChosenNotRegular, shown))
    } else if length > max {
        Err(error::fault_about(ErrorKind::ChosenTooLarge, text::decimal(max)))
    } else {
        match name {
            None => Err(error::fault(ErrorKind::ChosenNameNotUtf8)),
            Some(name) => filename::clean_name(name),
        }
    }
}

/// Checks a chosen file, and gives the name under which it is sent.
pub fn check_chosen_file(file: &ChosenFile, max_bytes: u64) -> (r: Result<String, TransferError>)
    ensures
        error::text_result(r) == sent_name(
            file.shown@,
            file.is_file,
            file.length as nat,
            crate::paths::text_option(file.name),
            max_bytes as nat,
        ),
        r matches Ok(name) ==> filename::is_settled(name@),
{
    if !file.is_file {
        return Err(TransferError::about(ErrorKind::ChosenNotRegular, file.shown.to_owned()));
    }
    if file.length > max_bytes {
        return Err(
            TransferError::about(ErrorKind::ChosenTooLarge, decimal_text(max_bytes as u128)),
        );
    }
    match file.name {
        None => Err(TransferError::new(ErrorKind::ChosenNameNotUtf8)),
        Some(name) => {
            proof {
                if filename::clean_name(name@) is Ok {
                    filename::law_cleaning_is_idempotent(name@);
                }
            }
            clean_filename(name)
        },
    }
}

/// As many bytes as the file had are read from it.
pub fn check_measured(measured: u64, length: u64) -> (r: Result<(), TransferError>)
    ensures
        error::unit_result(r) == if measured == length {
            Ok::<(), error::Fault>(())
        } else {
            Err(error::fault(ErrorKind::ChosenChangedInRead))
        },
{
    if measured != length {
        return Err(TransferError::new(ErrorKind::ChosenChangedInRead));
    }
    Ok(())
}

/// As many bytes as were announced are sent.
pub fn check_copied(copied: u64, length: u64) -> (r: Result<(), TransferError>)
    ensures
        error::unit_result(r) == if copied == length {
            Ok::<(), error::Fault>(())
        } else {
            Err(error::fault(ErrorKind::ChosenChangedInTransfer))
        },
{
    if copied != length {
        return Err(TransferError::new(ErrorKind::ChosenChangedInTransfer));
    }
    Ok(())
}

/// A file that is ready to be sent.
pub struct PreparedFile {
    pub filename: String,
    pub length: u64,
    pub checksum: String,
}

impl PreparedFile {
    /// The name is clean, and the checksum is one.
    pub open spec fn well_formed(&self) -> bool {
        filename::is_settled(self.filename@) && digest::is_checksum(self.checksum@)
    }
}

/// The fields that describe a file.
pub open spec fn file_fields(length: nat, encoded: Seq<char>, checksum: Seq<char>) -> Seq<
    (Seq<char>, Seq<char>),
> {
    seq![
        ("Content-Length"@, text::decimal(length)),
        ("X-Herdr-Filename"@, encoded),
        ("X-Herdr-SHA256"@, checksum),
    ]
}

/// The fields of a response that holds one file.
pub open spec fn single_fields(length: nat, encoded: Seq<char>, checksum: Seq<char>) -> Seq<
    (Seq<char>, Seq<char>),
> {
    seq![
        ("Content-Type"@, protocol::FILE_CONTENT_TYPE@),
        ("Content-Length"@, text::decimal(length)),
        ("X-Herdr-Filename"@, encoded),
        ("X-Herdr-SHA256"@, checksum),
        ("Connection"@, "close"@),
    ]
}

/// The fields of a response that holds several files.
pub open spec fn batch_fields(length: nat, count: nat) -> Seq<(Seq<char>, Seq<char>)> {
    seq![
        ("Content-Type"@, protocol::BATCH_CONTENT_TYPE@),
        ("Content-Length"@, text::decimal(length)),
        ("X-Herdr-File-Count"@, text::decimal(count)),
        ("Connection"@, "close"@),
    ]
}

/// Headers describe a file: its length, its name and its checksum can be read from them.
pub open spec fn describe(
    headers: Map<Seq<char>, Seq<char>>,
    length: nat,
    name: Seq<char>,
    checksum: Seq<char>,
) -> bool {
    &&& receiver::announced_length(headers) == Some(length)
    &&& receiver::announced_name(headers) == Ok::<Seq<char>, error::Fault>(name)
    &&& receiver::announced_checksum(headers) == checksum
}

/// The encoding of a clean name is short and printable.
pub proof fn lemma_encoded_name(name: Seq<char>, encoded: Seq<char>)
    requires
        filename::is_settled(name),
        encoded.len() == encoding::base64_length(encode_utf8(name).len()),
        forall|i: int| 0 <= i < encoded.len() ==> encoding::is_base64url_char(#[trigger] encoded[i]),
    ensures
        protocol::is_value_text(encoded),
        encoded.len() <= 320,
{
    http::lemma_encoded_is_nonempty(name);
    assert forall|i: int| 0 <= i < encoded.len() implies '!' <= #[trigger] encoded[i] <= '~' by {
        assert(encoding::is_base64url_char(encoded[i]));
    }
    assert(encoded.len() > 0);
    assert(encoded[0] != ' ');
    assert(encoded.last() != ' ');
}

/// A checksum is printable.
pub proof fn lemma_checksum_is_value(checksum: Seq<char>)
    requires
        digest::is_checksum(checksum),
    ensures
        protocol::is_value_text(checksum),
{
    assert forall|i: int| 0 <= i < checksum.len() implies '0' <= #[trigger] checksum[i] <= 'f' by {
        assert(digest::is_checksum_char(checksum[i]));
    }
    assert(checksum[0] != ' ' && checksum.last() != ' ');
}

/// The fields of a file are modest, and describe it.
proof fn lemma_file_fields(length: nat, name: Seq<char>, encoded: Seq<char>, checksum: Seq<char>)
    requires
        length <= u64::MAX,
        filename::is_settled(name),
        digest::is_checksum(checksum),
        encoded.len() == encoding::base64_length(encode_utf8(name).len()),
        forall|i: int| 0 <= i < encoded.len() ==> encoding::is_base64url_char(#[trigger] encoded[i]),
        encoding::header_text(encoded) == Ok::<Seq<char>, error::Fault>(name),
    ensures
        protocol::is_modest(file_fields(length, encoded, checksum)),
        protocol::is_modest(single_fields(length, encoded, checksum)),
        describe(
            http::header_map(http::lowered_fields(file_fields(length, encoded, checksum))),
            length,
            name,
            checksum,
        ),
        describe(
            http::header_map(http::lowered_fields(single_fields(length, encoded, checksum))),
            length,
            name,
            checksum,
        ),
        http::lookup(
            http::header_map(http::lowered_fields(single_fields(length, encoded, checksum))),
            "content-length"@,
        ) == Some(text::decimal(length)),
{
    protocol::lemma_names();
    protocol::lemma_decimal_is_value(length);
    lemma_encoded_name(name, encoded);
    lemma_checksum_is_value(checksum);
    reveal_strlit("application/octet-stream");
    reveal_strlit("close");
    assert(protocol::is_value_text(protocol::FILE_CONTENT_TYPE@));
    assert(protocol::is_value_text("close"@));
    text::law_decimal_is_read_back(length, u64::MAX as nat);
    let short = http::lowered_fields(file_fields(length, encoded, checksum));
    assert(short[0].0 == "content-length"@);
    assert(short[1].0 == "x-herdr-filename"@);
    assert(short[2].0 == "x-herdr-sha256"@);
    http::lemma_lookup(short, 0);
    http::lemma_lookup(short, 1);
    http::lemma_lookup(short, 2);
    let long = http::lowered_fields(single_fields(length, encoded, checksum));
    assert(long[1].0 == "content-length"@);
    assert(long[2].0 == "x-herdr-filename"@);
    assert(long[3].0 == "x-herdr-sha256"@);
    assert(long[4].0 == "connection"@);
    http::lemma_lookup(long, 1);
    http::lemma_lookup(long, 2);
    http::lemma_lookup(long, 3);
}

/// The encoded name of a file that is sent.
fn encoded_name(file: &PreparedFile) -> (r: String)
    requires
        file.well_formed(),
    ensures
        r@ == encoding::base64url(encode_utf8(file.filename@)),
        r@.len() == encoding::base64_length(encode_utf8(file.filename@).len()),
        forall|i: int| 0 <= i < r@.len() ==> encoding::is_base64url_char(#[trigger] r@[i]),
        encoding::header_text(r@) == Ok::<Seq<char>, error::Fault>(file.filename@),
{
    encode_header_value(file.filename.as_str())
}

/// Writes the head of a response that holds one file. A reader finds the status, and the length,
/// the name and the checksum of the file.
pub fn file_response_head(file: &PreparedFile) -> (r: String)
    requires
        file.well_formed(),
    ensures
        r@ == http::status_line(200, "OK"@) + http::header_block(
            single_fields(
                file.length as nat,
                encoding::base64url(encode_utf8(file.filename@)),
                file.checksum@,
            ),
        ),
        ({
            let headers = http::header_map(
                http::lowered_fields(
                    single_fields(
                        file.length as nat,
                        encoding::base64url(encode_utf8(file.filename@)),
                        file.checksum@,
                    ),
                ),
            );
            &&& describe(headers, file.length as nat, file.filename@, file.checksum@)
            &&& forall|body: Seq<char>|
                http::read_message(text::lines(#[trigger] (r@ + body))) == Ok::<_, error::Fault>(
                    (200nat, headers, text::lines(body)),
                )
        }),
{
    let encoded = encoded_name(file);
    let length = decimal_text(file.length as u128);
    let mut fields: Vec<Field> = Vec::new();
    fields.push(field("Content-Type", protocol::FILE_CONTENT_TYPE));
    fields.push(field("Content-Length", length.as_str()));
    fields.push(field("X-Herdr-Filename", encoded.as_str()));
    fields.push(field("X-Herdr-SHA256", file.checksum.as_str()));
    fields.push(field("Connection", "close"));
    let ghost model = single_fields(file.length as nat, encoded@, file.checksum@);
    assert(http::fields_of(fields@) =~= model);
    let start = http::status_line_text(200, "OK");
    let r = head_text(start.as_str(), &fields);
    proof {
        lemma_file_fields(file.length as nat, file.filename@, encoded@, file.checksum@);
        protocol::lemma_modest(model);
        protocol::lemma_status_words(protocol::Status::Done);
        assert forall|body: Seq<char>|
            http::read_message(text::lines(#[trigger] (r@ + body))) == Ok::<_, error::Fault>(
                (200nat, http::header_map(http::lowered_fields(model)), text::lines(body)),
            ) by {
            let line = http::status_line(200, "OK"@);
            assert(r@ + body =~= line + (http::header_block(model) + body));
            http::law_message_is_read_back(200, "OK"@, model, body);
        }
    }
    r
}

/// Writes the header block before one file of a batch. A reader finds the length, the name and the
/// checksum of the file, and what follows the block.
pub fn part_head(file: &PreparedFile) -> (r: String)
    requires
        file.well_formed(),
    ensures
        r@ == http::header_block(
            file_fields(
                file.length as nat,
                encoding::base64url(encode_utf8(file.filename@)),
                file.checksum@,
            ),
        ),
        ({
            let headers = http::header_map(
                http::lowered_fields(
                    file_fields(
                        file.length as nat,
                        encoding::base64url(encode_utf8(file.filename@)),
                        file.checksum@,
                    ),
                ),
            );
            &&& describe(headers, file.length as nat, file.filename@, file.checksum@)
            &&& forall|body: Seq<char>|
                http::read_block(0, Map::empty(), text::lines(#[trigger] (r@ + body))) == Ok::<
                    _,
                    error::Fault,
                >((headers, text::lines(body)))
        }),
{
    let encoded = encoded_name(file);
    let length = decimal_text(file.length as u128);
    let mut fields: Vec<Field> = Vec::new();
    fields.push(field("Content-Length", length.as_str()));
    fields.push(field("X-Herdr-Filename", encoded.as_str()));
    fields.push(field("X-Herdr-SHA256", file.checksum.as_str()));
    let ghost model = file_fields(file.length as nat, encoded@, file.checksum@);
    assert(http::fields_of(fields@) =~= model);
    let r = head_text("", &fields);
    proof {
        reveal_strlit("");
        assert(""@ + http::header_block(model) =~= http::header_block(model));
        lemma_file_fields(file.length as nat, file.filename@, encoded@, file.checksum@);
        protocol::lemma_modest(model);
        assert forall|body: Seq<char>|
            http::read_block(0, Map::empty(), text::lines(#[trigger] (r@ + body))) == Ok::<
                _,
                error::Fault,
            >((http::header_map(http::lowered_fields(model)), text::lines(body))) by {
            http::law_header_block_is_read_back(model, body);
        }
    }
    r
}

/// One file of a batch: the block before it, and its length.
pub struct Part {
    pub head: String,
    pub length: u64,
}

/// The bytes that the parts of a batch take: each block, and each file.
pub open spec fn batch_length(parts: Seq<Part>) -> nat
    decreases parts.len(),
{
    if parts.len() == 0 {
        0
    } else {
        batch_length(parts.drop_last()) + encode_utf8(parts.last().head@).len()
            + parts.last().length as nat
    }
}

/// Several files that are sent as one body.
pub struct Batch {
    parts: Vec<Part>,
    length: u64,
}

impl Batch {
    pub closed spec fn parts(&self) -> Seq<Part> {
        self.parts@
    }

    pub closed spec fn well_formed(&self) -> bool {
        self.length == batch_length(self.parts@)
    }

    pub fn new() -> (r: Self)
        ensures
            r.well_formed(),
            r.parts() == Seq::<Part>::empty(),
    {
        Batch { parts: Vec::new(), length: 0 }
    }

    /// Adds a file; refuses where the whole gets too long to be announced.
    pub fn add_file(&mut self, file: &PreparedFile) -> (r: Result<(), TransferError>)
        requires
            old(self).well_formed(),
            file.well_formed(),
        ensures
            final(self).well_formed(),
            ({
                let head = http::header_block(
                    file_fields(
                        file.length as nat,
                        encoding::base64url(encode_utf8(file.filename@)),
                        file.checksum@,
                    ),
                );
                let total = batch_length(old(self).parts()) + encode_utf8(head).len()
                    + file.length as nat;
                if total <= u64::MAX {
                    r is Ok && final(self).parts().len() == old(self).parts().len() + 1
                        && final(self).parts().drop_last() == old(self).parts()
                        && final(self).parts().last().head@ == head
                        && final(self).parts().last().length == file.length
                } else {
                    error::unit_result(r) == Err::<(), error::Fault>(
                        error::fault(ErrorKind::BatchTooLarge),
                    ) && final(self).parts() == old(self).parts()
                }
            }),
    {
        let head = part_head(file);
        let size: usize = byte_length(head.as_str());
        let ghost before = self.parts@;
        let room = match self.length.checked_add(size as u64) {
            Some(length) => length.checked_add(file.length),
            None => None,
        };
        match room {
            Some(length) => {
                self.parts.push(Part { head, length: file.length });
                self.length = length;
                assert(self.parts@.drop_last() =~= before);
                Ok(())
            },
            None => Err(TransferError::new(ErrorKind::BatchTooLarge)),
        }
    }

    /// How many files there are.
    pub fn count(&self) -> (r: usize)
        ensures
            r == self.parts().len(),
    {
        self.parts.len()
    }

    /// The block before the file of a number.
    pub fn head_of(&self, index: usize) -> (r: &str)
        requires
            index < self.parts().len(),
        ensures
            r@ == self.parts()[index as int].head@,
    {
        self.parts[index].head.as_str()
    }

    /// Writes the head of the response: it announces exactly the bytes that the parts take.
    pub fn response_head(&self) -> (r: String)
        requires
            self.well_formed(),
        ensures
            r@ == http::status_line(200, "OK"@) + http::header_block(
                batch_fields(batch_length(self.parts()), self.parts().len()),
            ),
    {
        let length = decimal_text(self.length as u128);
        let count = decimal_text(self.parts.len() as u128);
        let mut fields: Vec<Field> = Vec::new();
        fields.push(field("Content-Type", protocol::BATCH_CONTENT_TYPE));
        fields.push(field("Content-Length", length.as_str()));
        fields.push(field("X-Herdr-File-Count", count.as_str()));
        fields.push(field("Connection", "close"));
        assert(http::fields_of(fields@) =~= batch_fields(
            batch_length(self.parts@),
            self.parts@.len(),
        ));
        let start = http::status_line_text(200, "OK");
        head_text(start.as_str(), &fields)
    }
}

/// The head of a batch is read back: a reader finds the status, and how many bytes and files
/// follow.
pub proof fn law_batch_head_is_read_back(length: nat, count: nat, body: Seq<char>)
    requires
        length <= u64::MAX,
        count <= u64::MAX,
    ensures
        ({
            let fields = batch_fields(length, count);
            let headers = http::header_map(http::lowered_fields(fields));
            &&& http::read_message(
                text::lines(http::status_line(200, "OK"@) + (http::header_block(fields) + body)),
            ) == Ok::<_, error::Fault>((200nat, headers, text::lines(body)))
            &&& receiver::announced_length(headers) == Some(length)
            &&& http::lookup(headers, "x-herdr-file-count"@) == Some(text::decimal(count))
            &&& http::lookup(headers, "content-type"@) == Some(protocol::BATCH_CONTENT_TYPE@)
        }),
{
    let fields = batch_fields(length, count);
    protocol::lemma_names();
    protocol::lemma_decimal_is_value(length);
    protocol::lemma_decimal_is_value(count);
    reveal_strlit("application/x-herdr-file-batch");
    reveal_strlit("close");
    assert(protocol::is_value_text(protocol::BATCH_CONTENT_TYPE@));
    assert(protocol::is_value_text("close"@));
    assert(protocol::is_modest(fields));
    protocol::lemma_modest(fields);
    protocol::lemma_status_words(protocol::Status::Done);
    let names = http::lowered_fields(fields);
    assert(names[0].0 == "content-type"@);
    assert(names[1].0 == "content-length"@);
    assert(names[2].0 == "x-herdr-file-count"@);
    assert(names[3].0 == "connection"@);
    http::lemma_lookup(names, 0);
    http::lemma_lookup(names, 1);
    http::lemma_lookup(names, 2);
    text::law_decimal_is_read_back(length, u64::MAX as nat);
    http::law_message_is_read_back(200, "OK"@, fields, body);
}

/// The paths that the picker writes, with a null character between them and a line feed behind
/// them, are read back: all of them, in their order.
pub proof fn law_picked_paths_are_read_back(paths: Seq<Seq<char>>)
    requires
        paths.len() > 0,
        forall|i: int| 0 <= i < paths.len() ==> !(#[trigger] paths[i]).contains('\0'),
    ensures
        picked_paths(encode_utf8(text::joined_by(paths, '\0')).push(10)) == Ok::<_, error::Fault>(
            paths,
        ),
{
    let bytes = encode_utf8(text::joined_by(paths, '\0'));
    encode_utf8_valid_utf8(text::joined_by(paths, '\0'));
    encode_utf8_decode_utf8(text::joined_by(paths, '\0'));
    assert(bytes.push(10).drop_last() =~= bytes);
    text::law_joining_is_undone_by_splitting(paths, '\0');
}

/// One line feed behind what the picker wrote makes no difference, and what is not UTF-8 is refused.
pub proof fn law_one_line_feed_is_left_out(output: Seq<u8>)
    ensures
        output.len() == 0 || output.last() != 10 ==> picked_paths(output.push(10)) == picked_paths(
            output,
        ),
        !valid_utf8(output) ==> picked_paths(output.push(10)) == Err::<
            Seq<Seq<char>>,
            error::Fault,
        >(error::fault_about(ErrorKind::PickerNotUtf8, encoding::utf8_problem(output))),
{
    assert(output.push(10).drop_last() =~= output);
}

/// A picker that was cancelled says so in words or by its number; otherwise what it said is told,
/// without the white space around it.
pub proof fn law_cancelled_pickers_are_recognised(
    blank: Seq<char>,
    front: Seq<char>,
    back: Seq<char>,
    detail: Seq<char>,
    rest: Seq<char>,
)
    requires
        text::all_in(blank, |c: char| text::is_space(c)),
        text::all_in(rest, |c: char| text::is_space(c)),
        detail.len() > 0 ==> !text::is_space(detail[0]) && !text::is_space(detail.last()),
    ensures
        detail == front + "User canceled"@ + back ==> picker_fault(blank + detail + rest)
            == error::fault(ErrorKind::PickerCancelled),
        detail == front + "-128"@ + back ==> picker_fault(blank + detail + rest) == error::fault(
            ErrorKind::PickerCancelled,
        ),
        detail.len() > 0 && !text::has_text(detail, "User canceled"@) && !text::has_text(
            detail,
            "-128"@,
        ) ==> picker_fault(blank + detail + rest) == error::fault_about(
            ErrorKind::PickerFailed,
            detail,
        ),
        detail.len() == 0 ==> picker_fault(blank + detail + rest) == error::fault_about(
            ErrorKind::PickerFailed,
            "unknown error"@,
        ),
{
    reveal_strlit("User canceled");
    reveal_strlit("-128");
    text::law_trim_takes_off_white_space_only(blank, detail, rest);
    let at = front.len() as int;
    if detail == front + "User canceled"@ + back {
        assert(detail.subrange(at, at + 13) =~= "User canceled"@);
        assert(text::occurs_at(detail, "User canceled"@, at));
    }
    if detail == front + "-128"@ + back {
        assert(detail.subrange(at, at + 4) =~= "-128"@);
        assert(text::occurs_at(detail, "-128"@, at));
    }
}

/// Files are chosen on one system only; one file is sent alone, and several are sent as one body.
pub proof fn law_chosen_files_are_counted(os: Seq<char>, count: nat)
    ensures
        picker_system("macos"@) == Ok::<(), error::Fault>(()),
        os != "macos"@ ==> picker_system(os) == Err::<(), error::Fault>(
            error::fault(ErrorKind::PickerNeedsMacOs),
        ),
        delivery_of(0) == Err::<Delivery, error::Fault>(error::fault(ErrorKind::NoFileChosen)),
        delivery_of(1) == Ok::<Delivery, error::Fault>(Delivery::Single),
        count >= 2 ==> delivery_of(count) == Ok::<Delivery, error::Fault>(Delivery::Batch),
{
}

/// A regular file within the limit is sent under its name; anything else is refused for what it is.
pub proof fn law_chosen_files_keep_their_name(
    shown: Seq<char>,
    length: nat,
    name: Seq<char>,
    max: nat,
)
    requires
        filename::is_single(name),
        name.len() > 0,
        !text::is_space(name[0]),
        !text::is_space(name.last()),
        name != "."@,
        name != ".."@,
        forall|i: int| 0 <= i < name.len() ==> !text::is_control(#[trigger] name[i]),
        encode_utf8(name).len() <= 240,
    ensures
        length <= max ==> sent_name(shown, true, length, Some(name), max) == Ok::<_, error::Fault>(
            name,
        ),
        length <= max ==> sent_name(shown, true, length, None, max) == Err::<
            Seq<char>,
            error::Fault,
        >(error::fault(ErrorKind::ChosenNameNotUtf8)),
        length > max ==> sent_name(shown, true, length, Some(name), max) == Err::<
            Seq<char>,
            error::Fault,
        >(error::fault_about(ErrorKind::ChosenTooLarge, text::decimal(max))),
        sent_name(shown, false, length, Some(name), max) == Err::<Seq<char>, error::Fault>(
            error::fault_about(ErrorKind::ChosenNotRegular, shown),
        ),
{
    filename::law_safe_names_are_kept(name);
}

/// A batch takes as many bytes as its parts take: each its header block and its file.
pub proof fn law_batches_take_what_their_parts_take(a: Seq<Part>, b: Seq<Part>, part: Part)
    ensures
        batch_length(Seq::<Part>::empty()) == 0,
        batch_length(seq![part]) == encode_utf8(part.head@).len() + part.length,
        batch_length(a + b) == batch_length(a) + batch_length(b),
    decreases b.len(),
{
    reveal_with_fuel(batch_length, 2);
    assert(seq![part].drop_last() =~= Seq::<Part>::empty());
    if b.len() == 0 {
        assert(a + b =~= a);
    } else {
        law_batches_take_what_their_parts_take(a, b.drop_last(), part);
        assert((a + b).drop_last() =~= a + b.drop_last());
        assert((a + b).last() == b.last());
    }
}

/// The head of a response with one file tells that it is a file, its length, its name and its
/// checksum; the block before a file of a batch tells the latter three.
pub proof fn law_file_heads_tell_their_file(
    length: nat,
    name: Seq<char>,
    encoded: Seq<char>,
    checksum: Seq<char>,
)
    requires
        length <= u64::MAX,
        filename::is_settled(name),
        digest::is_checksum(checksum),
        encoded.len() == encoding::base64_length(encode_utf8(name).len()),
        forall|i: int| 0 <= i < encoded.len() ==> encoding::is_base64url_char(#[trigger] encoded[i]),
        encoding::header_text(encoded) == Ok::<Seq<char>, error::Fault>(name),
    ensures
        ({
            let single = http::header_map(
                http::lowered_fields(single_fields(length, encoded, checksum)),
            );
            let part = http::header_map(
                http::lowered_fields(file_fields(length, encoded, checksum)),
            );
            &&& http::lookup(single, "content-type"@) == Some("application/octet-stream"@)
            &&& http::lookup(single, "content-length"@) == Some(text::decimal(length))
            &&& http::lookup(single, "x-herdr-filename"@) == Some(encoded)
            &&& http::lookup(single, "x-herdr-sha256"@) == Some(checksum)
            &&& http::lookup(single, "connection"@) == Some("close"@)
            &&& http::lookup(part, "content-length"@) == Some(text::decimal(length))
            &&& http::lookup(part, "x-herdr-filename"@) == Some(encoded)
            &&& http::lookup(part, "x-herdr-sha256"@) == Some(checksum)
        }),
{
    protocol::lemma_names();
    let short = http::lowered_fields(file_fields(length, encoded, checksum));
    assert(short[0].0 == "content-length"@);
    assert(short[1].0 == "x-herdr-filename"@);
    assert(short[2].0 == "x-herdr-sha256"@);
    http::lemma_lookup(short, 0);
    http::lemma_lookup(short, 1);
    http::lemma_lookup(short, 2);
    let long = http::lowered_fields(single_fields(length, encoded, checksum));
    assert(long[0].0 == "content-type"@);
    assert(long[1].0 == "content-length"@);
    assert(long[2].0 == "x-herdr-filename"@);
    assert(long[3].0 == "x-herdr-sha256"@);
    assert(long[4].0 == "connection"@);
    http::lemma_lookup(long, 0);
    http::lemma_lookup(long, 1);
    http::lemma_lookup(long, 2);
    http::lemma_lookup(long, 3);
    http::lemma_lookup(long, 4);
}

/// The head of a batch tells that it is one, how many bytes and how many files follow.
pub proof fn law_batch_heads_tell_their_files(length: nat, count: nat)
    ensures
        ({
            let headers = http::header_map(http::lowered_fields(batch_fields(length, count)));
            &&& http::lookup(headers, "content-type"@) == Some("application/x-herdr-file-batch"@)
            &&& http::lookup(headers, "content-length"@) == Some(text::decimal(length))
            &&& http::lookup(headers, "x-herdr-file-count"@) == Some(text::decimal(count))
            &&& http::lookup(headers, "connection"@) == Some("close"@)
        }),
{
    protocol::lemma_names();
    let names = http::lowered_fields(batch_fields(length, count));
    assert(names[0].0 == "content-type"@);
    assert(names[1].0 == "content-length"@);
    assert(names[2].0 == "x-herdr-file-count"@);
    assert(names[3].0 == "connection"@);
    http::lemma_lookup(names, 0);
    http::lemma_lookup(names, 1);
    http::lemma_lookup(names, 2);
    http::lemma_lookup(names, 3);
}

} // verus!
