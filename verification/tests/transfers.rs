//! Whole transfers, over messages in memory and files in memory.
use std::io::{empty, Read};

use flate2::read::GzDecoder;
use flate2::write::GzEncoder;
use flate2::Compression;

use herdr_remote_download::archive::{entry_action, extraction_search, EntryAction, EntryKind};
use herdr_remote_download::chooser::{
    check_chosen_file, check_copied, check_measured, delivery, file_response_head, Batch,
    ChosenFile, Delivery, PreparedFile,
};
use herdr_remote_download::digest::{checksum_of, Checksum};
use herdr_remote_download::encoding::{decode_header_value, encode_header_value};
use herdr_remote_download::error::{ErrorKind, TransferError};
use herdr_remote_download::filename::{Creation, NameSearch, Purpose, SearchStep};
use herdr_remote_download::http::{
    read_headers, read_http_response, HttpResponse, CHOOSE_FILE_PATH, TRANSFER_PATH,
};
use herdr_remote_download::json::{
    count_member, parse_reply, text_member, JsonField, JsonObject,
};
use herdr_remote_download::protocol::{
    write_json_response, Reply, Status, BATCH_CONTENT_TYPE,
};
use herdr_remote_download::receiver::{
    decide, failure_reply, Decision, Request, RequestReader, ServerConfig, UploadRequest,
    COPY_BUFFER_BYTES,
};
use herdr_remote_download::sender::{
    check_receiver, check_sent, check_size, choose_source, health_request, preflight_timeout,
    receiver_unavailable, saved_note, upload_head, upload_result, PathKind, ReceiverEndpoint,
    Source, MAX_HEALTH_BYTES, MAX_RESPONSE_BYTES,
};
use herdr_remote_download::sending::{SendAction, SendEvent, Sending};
use herdr_remote_download::token::validate_token;
use herdr_remote_download::upload::{Action, Event, Upload};

const DESTINATION: &str = "/home/user/downloads";

/// Files in memory: what is saved where.
#[derive(Default)]
struct Disk {
    files: Vec<(String, Vec<u8>)>,
    directories: Vec<String>,
}

impl Disk {
    fn read(&self, path: &str) -> Option<&[u8]> {
        self.files.iter().find(|file| file.0 == path).map(|file| file.1.as_slice())
    }

    fn holds(&self, path: &str) -> bool {
        self.read(path).is_some() || self.directories.iter().any(|directory| directory == path)
    }

    fn write(&mut self, path: &str, content: &[u8]) {
        self.files.push((path.to_string(), content.to_vec()));
    }

    fn remove(&mut self, path: &str) {
        self.files.retain(|file| file.0 != path);
    }
}

fn test_server(token: &str) -> ServerConfig {
    ServerConfig {
        host: "127.0.0.1".to_string(),
        port: 0,
        destination: DESTINATION.to_string(),
        token: validate_token(token).unwrap(),
        max_bytes: 1024 * 1024,
        verbose: false,
    }
}

/// Searches for a free name below the destination.
fn search<F>(mut names: NameSearch, mut create: F) -> Result<String, TransferError>
where
    F: FnMut(&str) -> Creation,
{
    let mut name = names.name();
    loop {
        match names.advance(create(&format!("{DESTINATION}/{name}"))) {
            SearchStep::Try(next) => name = next,
            SearchStep::Found(found) => return Ok(format!("{DESTINATION}/{found}")),
            SearchStep::Stopped(error) => return Err(error),
        }
    }
}

fn extract(disk: &mut Disk, archive: &[u8], name: &str) -> Result<String, TransferError> {
    let names = extraction_search(name)?;
    let root = search(names, |path| {
        if disk.holds(path) {
            Creation::AlreadyExists
        } else {
            disk.directories.push(path.to_string());
            Creation::Created
        }
    })?;
    let mut archive = tar::Archive::new(GzDecoder::new(archive));
    for entry in archive.entries().unwrap() {
        let mut entry = entry.unwrap();
        let path = entry.path().unwrap().to_string_lossy().to_string();
        let kind = match entry.header().entry_type() {
            tar::EntryType::Regular => EntryKind::Regular,
            tar::EntryType::Directory => EntryKind::Directory,
            _ => EntryKind::Other,
        };
        match (entry_action(kind, &path)?, kind) {
            (EntryAction::Unpack, EntryKind::Regular) => {
                let mut content = Vec::new();
                entry.read_to_end(&mut content).unwrap();
                disk.write(&format!("{root}/{path}"), &content);
            }
            (EntryAction::Unpack, _) => disk.directories.push(format!("{root}/{path}")),
            (EntryAction::Skip, _) => {}
        }
    }
    Ok(root)
}

fn commit(disk: &mut Disk, temporary: &str, filename: &str) -> Result<String, TransferError> {
    let names = NameSearch::new(Purpose::Destination { filename: filename.to_string() });
    let content = disk.read(temporary).unwrap().to_vec();
    let path = search(names, |path| {
        if disk.holds(path) {
            Creation::AlreadyExists
        } else {
            disk.write(path, &content);
            Creation::Created
        }
    })?;
    disk.remove(temporary);
    Ok(path)
}

fn receive(disk: &mut Disk, request: UploadRequest, body: &[u8], piece: usize) -> Reply {
    let mut upload = Upload::new(request);
    let mut action = upload.pending();
    let mut rest = body;
    let mut read: Vec<u8> = Vec::new();
    let mut content: Vec<u8> = Vec::new();
    let mut temporary = String::new();
    loop {
        let event = match action {
            Action::PrepareDestination => Event::Done,
            Action::CreateTemporary => {
                let names = NameSearch::new(Purpose::Temporary { process: 7, moment: 9 });
                temporary = format!("{DESTINATION}/{}", names.name());
                Event::Done
            }
            Action::Read(wanted) => {
                let count = wanted.min(rest.len()).min(piece);
                read = rest[..count].to_vec();
                rest = &rest[count..];
                Event::Chunk(read.clone())
            }
            Action::Write => {
                content.extend_from_slice(&read);
                Event::Done
            }
            Action::Sync => {
                disk.write(&temporary, &content);
                Event::Done
            }
            Action::Extract(name) => match extract(disk, &content, &name) {
                Ok(path) => Event::Saved(path),
                Err(error) => Event::Failed(error.message()),
            },
            Action::Commit(filename) => match commit(disk, &temporary, &filename) {
                Ok(path) => Event::Saved(path),
                Err(error) => Event::Failed(error.message()),
            },
            Action::Finish { remove_temporary, reply } => {
                if remove_temporary {
                    disk.remove(&temporary);
                }
                return reply;
            }
            Action::Rest => unreachable!(),
        };
        action = upload.step(event);
    }
}

fn prepare(disk: &Disk, path: &str, max_bytes: u64) -> Result<PreparedFile, TransferError> {
    let content = disk.read(path).unwrap();
    let filename = check_chosen_file(
        &ChosenFile {
            shown: path,
            is_file: true,
            length: content.len() as u64,
            name: path.rsplit('/').next(),
        },
        max_bytes,
    )?;
    let mut digest = Checksum::new();
    for piece in content.chunks(3) {
        digest.update(piece);
    }
    check_measured(digest.measured(), content.len() as u64)?;
    Ok(PreparedFile { filename, length: content.len() as u64, checksum: digest.finish() })
}

fn send_chosen(
    config: &ServerConfig,
    disk: &Disk,
    chosen: &[String],
) -> Result<Vec<u8>, TransferError> {
    let mut out = Vec::new();
    match delivery(chosen.len())? {
        Delivery::Single => {
            let file = prepare(disk, &chosen[0], config.max_bytes)?;
            out.extend_from_slice(file_response_head(&file).as_bytes());
            out.extend_from_slice(disk.read(&chosen[0]).unwrap());
        }
        Delivery::Batch => {
            let mut batch = Batch::new();
            for path in chosen {
                batch.add_file(&prepare(disk, path, config.max_bytes)?)?;
            }
            out.extend_from_slice(batch.response_head().as_bytes());
            for (index, path) in chosen.iter().enumerate() {
                out.extend_from_slice(batch.head_of(index).as_bytes());
                out.extend_from_slice(disk.read(path).unwrap());
            }
        }
    }
    Ok(out)
}

fn next_line(rest: &[u8]) -> (String, &[u8]) {
    let end = rest.iter().position(|byte| *byte == b'\n').map_or(rest.len(), |at| at + 1);
    (String::from_utf8(rest[..end].to_vec()).unwrap(), &rest[end..])
}

/// Reads a request; gives it and its body.
fn read_request(message: &[u8]) -> Result<(Request, &[u8]), TransferError> {
    let mut reader = RequestReader::new();
    let mut rest = message;
    loop {
        let (line, tail) = next_line(rest);
        rest = tail;
        if let Some(request) = reader.accept(&line)? {
            return Ok((request, rest));
        }
    }
}

fn serve<P>(config: &ServerConfig, disk: &mut Disk, message: &[u8], picker: P) -> Vec<u8>
where
    P: FnOnce() -> Result<Vec<String>, TransferError>,
{
    let outcome = read_request(message).and_then(|(request, body)| match decide(config, &request) {
        Decision::Answer { discard, reply } => {
            assert!(discard <= config.max_bytes);
            Ok(write_json_response(&reply))
        }
        Decision::Receive(request) => Ok(write_json_response(&receive(disk, request, body, 4))),
        Decision::Choose => picker().and_then(|chosen| send_chosen(config, disk, &chosen)),
    });
    match outcome {
        Ok(bytes) => bytes,
        Err(error) => write_json_response(&failure_reply(&error.message())),
    }
}

fn no_picker() -> Result<Vec<String>, TransferError> {
    panic!("the file picker was opened")
}

/// Reads a response: its lines up to the body, and the body.
fn read_response(message: &[u8], max: usize) -> Result<HttpResponse, TransferError> {
    let mut lines = Vec::new();
    let mut rest = message;
    while !rest.is_empty() && lines.last().map(String::as_str) != Some("\r\n") {
        let (line, tail) = next_line(rest);
        lines.push(line);
        rest = tail;
    }
    let (status, length) = read_http_response(&lines, max)?;
    assert_eq!(rest.len(), length);
    Ok(HttpResponse { status, body: rest.to_vec() })
}

fn loopback() -> ReceiverEndpoint {
    ReceiverEndpoint::Tcp { host: "127.0.0.1".to_string(), port: 18_340 }
}

fn archive_of(files: &[(&str, &str)]) -> Vec<u8> {
    let mut builder = tar::Builder::new(GzEncoder::new(Vec::new(), Compression::default()));
    for (path, content) in files {
        let mut header = tar::Header::new_gnu();
        header.set_size(content.len() as u64);
        header.set_mode(0o644);
        header.set_cksum();
        builder.append_data(&mut header, path, content.as_bytes()).unwrap();
    }
    builder.into_inner().unwrap().finish().unwrap()
}

/// Sends content. `ask` gives the receiver's health response, or why there is none; `answer` gives
/// the response to the upload.
fn send<A, B>(
    mut sending: Sending,
    kind: PathKind,
    path: &str,
    content: &[u8],
    mut ask: A,
    mut answer: B,
) -> Result<JsonObject, TransferError>
where
    A: FnMut(u64) -> Result<Vec<u8>, String>,
    B: FnMut(&[u8]) -> Vec<u8>,
{
    let mut message: Vec<u8> = Vec::new();
    let mut action = sending.pending();
    loop {
        let event = match action {
            SendAction::Inspect => SendEvent::Inspected {
                kind,
                name: path.rsplit('/').next().map(String::from),
                shown: path.to_string(),
            },
            SendAction::Archive => {
                assert!(sending.is_archive());
                SendEvent::Done
            }
            SendAction::Measure => SendEvent::Measured(content.len() as u64),
            SendAction::Ask(seconds) => match ask(seconds) {
                Ok(health) => SendEvent::Answered(read_response(&health, MAX_HEALTH_BYTES)?),
                Err(words) => SendEvent::Failed(words),
            },
            SendAction::Hash => SendEvent::Hashed(checksum_of(content)),
            SendAction::SendHead(head) => {
                message.extend_from_slice(head.as_bytes());
                SendEvent::Done
            }
            SendAction::SendBody => {
                message.extend_from_slice(content);
                SendEvent::Sent(content.len() as u64)
            }
            SendAction::ReadAnswer => {
                let response = answer(&message);
                SendEvent::Answered(read_response(&response, MAX_RESPONSE_BYTES)?)
            }
            SendAction::Finish(result) => return result,
            SendAction::Rest => unreachable!(),
        };
        action = sending.step(event);
    }
}

/// Sends content to a receiver: asks for its health first, then uploads.
fn upload(
    config: &ServerConfig,
    disk: &mut Disk,
    kind: PathKind,
    path: &str,
    content: &[u8],
    token: &str,
    timeout_seconds: u64,
    max_bytes: u64,
) -> Result<JsonObject, TransferError> {
    let health = serve(config, disk, health_request().as_bytes(), no_picker);
    send(
        Sending::new(token, loopback(), timeout_seconds, max_bytes)?,
        kind,
        path,
        content,
        |seconds| {
            assert_eq!(seconds, timeout_seconds.min(3));
            Ok(health.clone())
        },
        |message| serve(config, disk, message, no_picker),
    )
}

#[test]
fn upload_saves_without_overwriting() {
    let token = "ab".repeat(32);
    let server = test_server(&token);
    let mut disk = Disk::default();
    disk.write("/home/user/downloads/report.txt", b"keep");

    let result = upload(
        &server,
        &mut disk,
        PathKind::RegularFile,
        "/remote/report.txt",
        b"new report",
        &token,
        5,
        1024 * 1024,
    )
    .unwrap();
    let saved = result.text("path").unwrap();
    assert_eq!(saved.rsplit('/').next(), Some("report (1).txt"));
    assert_eq!(disk.read(saved).unwrap(), b"new report");
    assert_eq!(disk.read("/home/user/downloads/report.txt").unwrap(), b"keep");
    assert_eq!(disk.files.len(), 2);
    assert_eq!(saved_note(&result), "Saved /home/user/downloads/report (1).txt");
    assert_eq!(result.count("bytes"), Some(10));
    assert_eq!(result.text("sha256"), Some(checksum_of(b"new report").as_str()));
}

#[test]
fn invalid_token_is_rejected() {
    let token = "ab".repeat(32);
    let server = test_server(&token);
    let mut disk = Disk::default();
    let error = upload(
        &server,
        &mut disk,
        PathKind::RegularFile,
        "/remote/secret.txt",
        b"secret",
        &"cd".repeat(32),
        5,
        1024 * 1024,
    )
    .err()
    .unwrap();
    let detail = error.message();
    assert!(detail.contains("401"), "{detail}");
    assert_eq!(detail, "receiver returned HTTP 401: unauthorized");
    assert!(disk.files.is_empty());
}

#[test]
fn health_endpoint_is_http_compatible() {
    let server = test_server(&"ab".repeat(32));
    let mut disk = Disk::default();
    assert_eq!(
        health_request(),
        "GET /health HTTP/1.1\r\nHost: localhost\r\nConnection: close\r\n\r\n"
    );
    let health = serve(&server, &mut disk, health_request().as_bytes(), no_picker);
    let response = read_response(&health, MAX_HEALTH_BYTES).unwrap();
    check_receiver(&loopback(), &response).unwrap();
    let text = String::from_utf8(health).unwrap();
    assert!(text.starts_with("HTTP/1.1 200 OK\r\nContent-Type: application/json; charset=utf-8\r\n"));
    let object = parse_reply(&response.body).unwrap();
    assert_eq!(object.text("destination"), Some("/home/user/downloads"));
    assert!(matches!(object.get("capabilities"), Some(JsonField::Array)));
}

fn choose_message(token: &str) -> String {
    format!(
        "POST {CHOOSE_FILE_PATH} HTTP/1.1\r\n\
         Authorization: Bearer {token}\r\n\
         Content-Length: 0\r\n\
         Connection: close\r\n\r\n"
    )
}

/// The lines of a message up to the empty one, and what follows.
fn block(message: &[u8]) -> (Vec<String>, &[u8]) {
    let mut lines = Vec::new();
    let mut rest = message;
    while lines.last().map(String::as_str) != Some("\r\n") {
        let (line, tail) = next_line(rest);
        lines.push(line);
        rest = tail;
    }
    (lines, rest)
}

#[test]
fn chosen_mac_file_is_streamed_with_authentication() {
    let token = "ab".repeat(32);
    let server = test_server(&token);
    let mut disk = Disk::default();
    disk.write("/mac/chosen file.txt", b"chosen on mac");
    let response = serve(&server, &mut disk, choose_message(&token).as_bytes(), || {
        Ok(vec!["/mac/chosen file.txt".to_string()])
    });
    let (lines, body) = block(&response);
    let (headers, next) = read_headers(&lines, 1).unwrap();
    assert_eq!(next, lines.len());

    assert!(lines[0].contains("200 OK"));
    assert_eq!(headers.get("content-type"), Some("application/octet-stream"));
    assert_eq!(headers.get("content-length"), Some("13"));
    assert_eq!(
        decode_header_value(headers.get("x-herdr-filename").unwrap()).unwrap(),
        "chosen file.txt"
    );
    assert_eq!(headers.get("x-herdr-sha256").unwrap(), checksum_of(b"chosen on mac"));
    assert_eq!(body, b"chosen on mac");
}

#[test]
fn chosen_mac_files_are_streamed_as_one_batch() {
    let token = "ab".repeat(32);
    let server = test_server(&token);
    let mut disk = Disk::default();
    disk.write("/mac/first file.txt", b"first");
    disk.write("/mac/second.bin", b"second");
    let response = serve(&server, &mut disk, choose_message(&token).as_bytes(), || {
        Ok(vec!["/mac/first file.txt".to_string(), "/mac/second.bin".to_string()])
    });
    let (lines, mut rest) = block(&response);
    let (response_headers, _) = read_headers(&lines, 1).unwrap();

    assert!(lines[0].contains("200 OK"));
    assert_eq!(response_headers.get("content-type"), Some(BATCH_CONTENT_TYPE));
    assert_eq!(response_headers.get("x-herdr-file-count"), Some("2"));
    assert_eq!(response_headers.get("content-length"), Some(rest.len().to_string().as_str()));
    for (expected_name, expected_body) in
        [("first file.txt", b"first".as_slice()), ("second.bin", b"second".as_slice())]
    {
        let (lines, after) = block(rest);
        let (headers, _) = read_headers(&lines, 0).unwrap();
        let length = headers.get("content-length").unwrap().parse::<usize>().unwrap();
        let body = &after[..length];
        assert_eq!(
            decode_header_value(headers.get("x-herdr-filename").unwrap()).unwrap(),
            expected_name
        );
        assert_eq!(headers.get("x-herdr-sha256").unwrap(), checksum_of(expected_body));
        assert_eq!(body, expected_body);
        rest = &after[length..];
    }
    assert!(rest.is_empty());
}

#[test]
fn invalid_upload_token_does_not_open_file_picker() {
    let server = test_server(&"ab".repeat(32));
    let mut disk = Disk::default();
    let response =
        serve(&server, &mut disk, choose_message(&"cd".repeat(32)).as_bytes(), no_picker);
    let response = read_response(&response, MAX_RESPONSE_BYTES).unwrap();
    assert_eq!(response.status, 401);
}

#[test]
fn upload_works_through_forwarded_unix_socket() {
    let token = "ab".repeat(32);
    let socket = ReceiverEndpoint::Unix("/tmp/forward.sock".to_string());
    assert_eq!(socket.display(), "/tmp/forward.sock");
    let mut asked = 0;
    let mut received: Vec<u8> = Vec::new();
    let result = send(
        Sending::new(&token, socket, 5, 1024 * 1024).unwrap(),
        PathKind::RegularFile,
        "/remote/unix.txt",
        b"through unix socket",
        |_| {
            asked += 1;
            let health = Reply {
                status: Status::Done,
                members: vec![
                    text_member("service", "herdr-remote-download"),
                    text_member("status", "ok"),
                ],
            };
            Ok(write_json_response(&health))
        },
        |message| {
            let (request, rest) = read_request(message).unwrap();
            let headers = &request.headers;
            assert_eq!(request.line.method, "POST");
            assert_eq!(request.line.target, TRANSFER_PATH);
            assert_eq!(headers.get("authorization"), Some(format!("Bearer {token}").as_str()));
            let length = headers.get("content-length").unwrap().parse::<usize>().unwrap();
            assert_eq!(rest.len(), length);
            received = rest[..length].to_vec();
            let checksum = headers.get("x-herdr-sha256").unwrap();
            assert_eq!(checksum, checksum_of(b"through unix socket"));
            let created = Reply {
                status: Status::Created,
                members: vec![
                    text_member("path", "/local/received-unix.txt"),
                    count_member("bytes", length as u64),
                    text_member("sha256", checksum),
                ],
            };
            write_json_response(&created)
        },
    )
    .unwrap();
    assert_eq!(asked, 1);
    assert_eq!(received, b"through unix socket");
    assert_eq!(result.count("bytes"), Some(19));
    assert_eq!(result.text("path"), Some("/local/received-unix.txt"));
    assert_eq!(result.text("sha256"), Some(checksum_of(b"through unix socket").as_str()));
}

#[test]
fn unavailable_receiver_fails_with_forwarding_error() {
    let error = send(
        Sending::new(&"ab".repeat(32), loopback(), 1, 1024).unwrap(),
        PathKind::RegularFile,
        "/remote/large.bin",
        b"content",
        |seconds| {
            assert_eq!(seconds, 1);
            Err("cannot connect to 127.0.0.1:18340: Connection refused".to_string())
        },
        |_| panic!("the file was sent"),
    )
    .err()
    .unwrap();
    assert!(error.message().contains("local receiver is unavailable"));
    assert_eq!(
        error.message(),
        "local receiver is unavailable through 127.0.0.1:18340; reconnect the Herdr remote session \
         and verify its SSH RemoteForward"
    );
    assert_eq!(error.message(), receiver_unavailable(&loopback()).message());
}

#[test]
fn checksum_mismatch_removes_partial_file() {
    let token = "ab".repeat(32);
    let server = test_server(&token);
    let mut disk = Disk::default();
    let body = b"corrupted";
    let mut message = format!(
        "POST {TRANSFER_PATH} HTTP/1.1\r\n\
         Authorization: Bearer {token}\r\n\
         Content-Length: {}\r\n\
         X-Herdr-Filename: {}\r\n\
         X-Herdr-SHA256: {}\r\n\
         Connection: close\r\n\r\n",
        body.len(),
        encode_header_value("result.bin"),
        "00".repeat(32)
    )
    .into_bytes();
    message.extend_from_slice(body);
    let response = serve(&server, &mut disk, &message, no_picker);
    let response = read_response(&response, MAX_RESPONSE_BYTES).unwrap();
    assert_eq!(response.status, 422);
    assert!(!disk.holds("/home/user/downloads/result.bin"));
    assert_eq!(disk.files.len(), 0);
    let error = upload_result(&response).err().unwrap();
    assert_eq!(error.message(), "receiver returned HTTP 422: SHA-256 mismatch");
}

#[test]
fn directory_upload_is_extracted_on_the_receiver() {
    let token = "ab".repeat(32);
    let server = test_server(&token);
    let mut disk = Disk::default();
    let archive = archive_of(&[("./a.txt", "alpha"), ("./nested/b.txt", "beta")]);

    let response = upload(
        &server,
        &mut disk,
        PathKind::Directory,
        "/remote/mydir",
        &archive,
        &token,
        30,
        1024 * 1024,
    )
    .unwrap();

    assert!(matches!(response.get("extracted"), Some(JsonField::Bool(true))));
    let extracted = response.text("path").unwrap();
    assert_eq!(extracted.rsplit('/').next(), Some("mydir"));
    let paths: Vec<&str> = disk.files.iter().map(|file| file.0.as_str()).collect();
    assert_eq!(paths.len(), 2);
    assert!(paths.iter().all(|path| path.starts_with("/home/user/downloads/mydir/")));
    assert!(disk.files.iter().any(|file| file.0.ends_with("a.txt") && file.1 == b"alpha"));
    assert!(disk.files.iter().any(|file| file.0.ends_with("nested/b.txt") && file.1 == b"beta"));

    let again = upload(
        &server,
        &mut disk,
        PathKind::Directory,
        "/remote/mydir",
        &archive,
        &token,
        30,
        1024 * 1024,
    )
    .unwrap();
    assert_eq!(again.text("path"), Some("/home/user/downloads/mydir (1)"));
}

#[test]
fn extraction_skips_duplicate_names_and_special_entries() {
    let mut builder = tar::Builder::new(GzEncoder::new(Vec::new(), Compression::default()));
    let mut header = tar::Header::new_gnu();
    header.set_size(0);
    header.set_entry_type(tar::EntryType::Symlink);
    header.set_link_name("/etc/passwd").unwrap();
    builder.append_data(&mut header, "danger", empty()).unwrap();
    let mut regular = tar::Header::new_gnu();
    regular.set_size(5);
    regular.set_mode(0o644);
    regular.set_cksum();
    builder.append_data(&mut regular, "keep.txt", b"bytes" as &[u8]).unwrap();
    let archive = builder.into_inner().unwrap().finish().unwrap();

    let mut disk = Disk::default();
    let extracted = extract(&mut disk, &archive, "special").unwrap();
    assert!(!disk.holds(&format!("{extracted}/danger")));
    assert_eq!(disk.read(&format!("{extracted}/keep.txt")).unwrap(), b"bytes");

    disk.directories.push("/home/user/downloads/special (1)".to_string());
    let again = extract(&mut disk, &archive, "special").unwrap();
    assert_eq!(again, "/home/user/downloads/special (2)");
}

// -------------------------------------------------------------------------------------------------
// What uploads are answered

fn upload_message(fields: &[(&str, &str)], body: &[u8]) -> Vec<u8> {
    let mut text = format!("POST {TRANSFER_PATH} HTTP/1.1\r\n");
    for (name, value) in fields {
        text.push_str(&format!("{name}: {value}\r\n"));
    }
    text.push_str("\r\n");
    let mut message = text.into_bytes();
    message.extend_from_slice(body);
    message
}

fn answer(message: &[u8]) -> (u16, String) {
    let mut disk = Disk::default();
    let response = serve(&test_server(&"ab".repeat(32)), &mut disk, message, no_picker);
    let response = read_response(&response, MAX_RESPONSE_BYTES).unwrap();
    let object = parse_reply(&response.body).unwrap();
    (response.status, object.text("error").unwrap_or_default().to_string())
}

#[test]
fn uploads_are_refused_with_the_reason() {
    let bearer = format!("Bearer {}", "ab".repeat(32));
    let name = encode_header_value("a.txt");
    let sum = checksum_of(b"abc");
    let authorization = ("Authorization", bearer.as_str());

    assert_eq!(answer(&upload_message(&[], b"")), (401, "unauthorized".to_string()));
    assert_eq!(
        answer(&upload_message(&[authorization], b"")),
        (411, "valid Content-Length required".to_string())
    );
    assert_eq!(
        answer(&upload_message(&[authorization, ("Content-Length", "-1")], b"")),
        (411, "valid Content-Length required".to_string())
    );
    assert_eq!(
        answer(&upload_message(&[authorization, ("Content-Length", "1048577")], b"")),
        (413, "file exceeds receiver limit".to_string())
    );
    assert_eq!(
        answer(&upload_message(&[authorization, ("Content-Length", "3")], b"abc")),
        (400, "missing encoded filename".to_string())
    );
    assert_eq!(
        answer(&upload_message(
            &[authorization, ("Content-Length", "3"), ("X-Herdr-Filename", "")],
            b"abc"
        )),
        (400, "invalid encoded filename".to_string())
    );
    let (status, undecodable) = answer(&upload_message(
        &[authorization, ("Content-Length", "3"), ("X-Herdr-Filename", "%%%")],
        b"abc",
    ));
    assert_eq!(status, 400);
    assert!(undecodable.starts_with("invalid encoded filename: "), "{undecodable}");
    let unsafe_name = encode_header_value("..");
    assert_eq!(
        answer(&upload_message(
            &[authorization, ("Content-Length", "3"), ("X-Herdr-Filename", &unsafe_name)],
            b"abc"
        )),
        (400, "unsafe or unsupported filename".to_string())
    );
    let upper = sum.to_uppercase();
    for wrong in ["", "00", upper.as_str()] {
        assert_eq!(
            answer(&upload_message(
                &[
                    authorization,
                    ("Content-Length", "3"),
                    ("X-Herdr-Filename", &name),
                    ("X-Herdr-SHA256", wrong),
                ],
                b"abc"
            )),
            (400, "valid SHA-256 header required".to_string())
        );
    }
    let fields = [
        authorization,
        ("Content-Length", "3"),
        ("X-Herdr-Filename", name.as_str()),
        ("X-Herdr-SHA256", sum.as_str()),
    ];
    assert_eq!(
        answer(&upload_message(&fields, b"ab")),
        (400, "request body ended before Content-Length".to_string())
    );
    assert_eq!(answer(&upload_message(&fields, b"abc")), (201, String::new()));
}

#[test]
fn requests_that_cannot_be_read_are_answered() {
    assert_eq!(
        answer(b"GET /health\r\n\r\n"),
        (400, "invalid HTTP request line".to_string())
    );
    assert_eq!(
        answer(b"GET /health HTTP/1.1\r\nno colon\r\n\r\n"),
        (400, "invalid HTTP header".to_string())
    );
    assert_eq!(answer(b"GET /other HTTP/1.1\r\n\r\n"), (404, "not found".to_string()));
    assert_eq!(answer(b"PUT /health HTTP/1.1\r\n\r\n"), (404, "not found".to_string()));
    assert_eq!(
        answer(b""),
        (400, "connection ended before HTTP headers".to_string())
    );
    let bearer = format!("Bearer {}", "ab".repeat(32));
    assert_eq!(
        answer(
            format!("POST {CHOOSE_FILE_PATH} HTTP/1.1\r\nAuthorization: {bearer}\r\n\r\n")
                .as_bytes()
        ),
        (400, "Content-Length must be zero".to_string())
    );
}

#[test]
fn unauthorized_bodies_are_discarded_within_the_limit() {
    let server = test_server(&"ab".repeat(32));
    for (length, expected) in [("9", 9_u64), ("1048576", 1048576), ("1048577", 0), ("x", 0)] {
        let message = upload_message(&[("Content-Length", length)], b"");
        let (request, _) = read_request(&message).unwrap();
        match decide(&server, &request) {
            Decision::Answer { discard, reply } => {
                assert_eq!(discard, expected);
                assert_eq!(reply.status, Status::Unauthorized);
            }
            _ => panic!("an unauthorized upload was accepted"),
        }
    }
}

fn order(length: u64, checksum: &str, extract: bool) -> UploadRequest {
    UploadRequest {
        length,
        filename: "a.tar.gz".to_string(),
        checksum: checksum.to_string(),
        extract,
    }
}

fn finish(action: Action) -> (bool, u16, String) {
    match action {
        Action::Finish { remove_temporary, reply } => {
            let bytes = write_json_response(&reply);
            let response = read_response(&bytes, MAX_RESPONSE_BYTES).unwrap();
            let object = parse_reply(&response.body).unwrap();
            let error = object.text("error").unwrap_or_default().to_string();
            (remove_temporary, response.status, error)
        }
        _ => panic!("the upload goes on"),
    }
}

#[test]
fn failures_of_an_upload_are_told() {
    let failed = || Event::Failed("disk on fire".to_string());
    let mut upload = Upload::new(order(2, &checksum_of(b"ab"), false));
    assert_eq!(
        finish(upload.step(failed())),
        (false, 500, "cannot create destination: disk on fire".to_string())
    );
    assert!(matches!(upload.step(Event::Done), Action::Rest));

    let mut upload = Upload::new(order(2, &checksum_of(b"ab"), false));
    upload.step(Event::Done);
    assert_eq!(
        finish(upload.step(failed())),
        (false, 500, "cannot create temporary file: disk on fire".to_string())
    );

    let mut upload = Upload::new(order(2, &checksum_of(b"ab"), false));
    upload.step(Event::Done);
    upload.step(Event::Done);
    assert_eq!(
        finish(upload.step(failed())),
        (true, 400, "request body ended before Content-Length: disk on fire".to_string())
    );

    let mut upload = Upload::new(order(2, &checksum_of(b"ab"), false));
    upload.step(Event::Done);
    upload.step(Event::Done);
    assert!(matches!(upload.step(Event::Chunk(b"ab".to_vec())), Action::Write));
    assert_eq!(upload.received(), 2);
    assert_eq!(finish(upload.step(failed())), (true, 400, "disk on fire".to_string()));

    for (extract, words) in [(false, "cannot save file: "), (true, "cannot extract archive: ")] {
        let mut upload = Upload::new(order(2, &checksum_of(b"ab"), extract));
        upload.step(Event::Done);
        upload.step(Event::Done);
        upload.step(Event::Chunk(b"ab".to_vec()));
        assert!(matches!(upload.step(Event::Done), Action::Sync));
        match upload.step(Event::Done) {
            Action::Commit(name) => assert_eq!((extract, name.as_str()), (false, "a.tar.gz")),
            Action::Extract(name) => assert_eq!((extract, name.as_str()), (true, "a")),
            _ => panic!("the file is not saved"),
        }
        assert_eq!(finish(upload.step(failed())), (true, 500, format!("{words}disk on fire")));
    }

    let mut upload = Upload::new(order(0, &checksum_of(b""), false));
    upload.step(Event::Done);
    assert!(matches!(upload.step(Event::Done), Action::Sync));
    assert_eq!(finish(upload.step(failed())), (true, 400, "disk on fire".to_string()));
}

#[test]
fn events_out_of_place_change_nothing() {
    let mut upload = Upload::new(order(2, &checksum_of(b"ab"), false));
    assert!(matches!(upload.step(Event::Chunk(b"ab".to_vec())), Action::PrepareDestination));
    assert!(matches!(upload.step(Event::Saved("/x".to_string())), Action::PrepareDestination));
    upload.step(Event::Done);
    upload.step(Event::Done);
    assert!(matches!(upload.step(Event::Chunk(b"abc".to_vec())), Action::Read(2)));
    assert!(matches!(upload.step(Event::Done), Action::Read(2)));
    assert_eq!(upload.received(), 0);
}

#[test]
fn large_bodies_are_read_in_pieces() {
    let length = COPY_BUFFER_BYTES as u64 + 1;
    let mut upload = Upload::new(order(length, &"0".repeat(64), false));
    upload.step(Event::Done);
    assert!(matches!(upload.step(Event::Done), Action::Read(COPY_BUFFER_BYTES)));
    upload.step(Event::Chunk(vec![7; COPY_BUFFER_BYTES]));
    assert!(matches!(upload.step(Event::Done), Action::Read(1)));
}

// -------------------------------------------------------------------------------------------------
// What the sender says

#[test]
fn upload_heads_are_spelled_out() {
    let token = "ab".repeat(32);
    let sum = checksum_of(b"");
    let plain = Source { filename: "a b.txt".to_string(), extract: false };
    assert_eq!(
        upload_head(&token, 12, &plain, &sum),
        format!(
            "POST /v1/files HTTP/1.1\r\n\
             Host: localhost\r\n\
             Authorization: Bearer {token}\r\n\
             Content-Length: 12\r\n\
             Content-Type: application/octet-stream\r\n\
             X-Herdr-Filename: YSBiLnR4dA\r\n\
             X-Herdr-SHA256: {sum}\r\n\
             Connection: close\r\n\r\n"
        )
    );
    let archive = Source { filename: "d.tar.gz".to_string(), extract: true };
    let head = upload_head(&token, 12, &archive, &sum);
    assert!(head.contains(&format!("\r\nX-Herdr-Extract: 1\r\nX-Herdr-SHA256: {sum}\r\n")));
}

#[test]
fn sources_are_checked() {
    let directory = choose_source(PathKind::Directory, Some("mydir"), "/r/mydir").unwrap();
    assert_eq!((directory.filename.as_str(), directory.extract), ("mydir.tar.gz", true));
    let file = choose_source(PathKind::RegularFile, Some("a.txt"), "/r/a.txt").unwrap();
    assert_eq!((file.filename.as_str(), file.extract), ("a.txt", false));
    let kinds = [
        (PathKind::Directory, "directory name is not valid UTF-8"),
        (PathKind::RegularFile, "filename is not valid UTF-8"),
        (PathKind::Other, "not a regular file or directory: /r/x"),
    ];
    for (kind, message) in kinds {
        assert_eq!(choose_source(kind, None, "/r/x").err().unwrap().message(), message);
    }
    assert!(check_size(5, 5).is_ok());
    assert_eq!(
        check_size(6, 5).err().unwrap().message(),
        "file is larger than the 5 byte transfer limit"
    );
    assert_eq!(
        check_sent(4, 5).err().unwrap().message(),
        "file changed while it was being transferred"
    );
}

#[test]
fn preflight_is_short() {
    assert_eq!(preflight_timeout(300).unwrap(), 3);
    assert_eq!(preflight_timeout(2).unwrap(), 2);
    assert_eq!(
        preflight_timeout(0).err().unwrap().message(),
        "transfer timeout must be greater than zero"
    );
}

#[test]
fn answers_of_other_services_are_recognised() {
    let good = br#"{"service": "herdr-remote-download", "status": "ok"}"#;
    let cases: [(u16, &[u8], bool); 6] = [
        (200, good, true),
        (201, good, false),
        (200, br#"{"service": "herdr-remote-download"}"#, false),
        (200, br#"{"service": "other", "status": "ok"}"#, false),
        (200, br#"["herdr-remote-download", "ok"]"#, false),
        (200, b"<html>", false),
    ];
    for (status, body, expected) in cases {
        let response = HttpResponse { status, body: body.to_vec() };
        let verdict = check_receiver(&loopback(), &response);
        assert_eq!(verdict.is_ok(), expected);
        if let Err(error) = verdict {
            assert_eq!(error.kind, ErrorKind::UnexpectedService);
            assert_eq!(
                error.message(),
                "unexpected service through 127.0.0.1:18340; verify the Herdr remote-download SSH \
                 RemoteForward"
            );
        }
    }
}

#[test]
fn answers_to_uploads_are_understood() {
    let response = |status: u16, body: &[u8]| HttpResponse { status, body: body.to_vec() };
    let told = |status: u16, body: &[u8]| {
        upload_result(&response(status, body)).err().unwrap().message()
    };
    assert_eq!(told(500, b"{}"), "receiver returned HTTP 500");
    assert_eq!(told(500, br#"{"error": 7}"#), "receiver returned HTTP 500");
    assert_eq!(told(500, br#"{"error": "full"}"#), "receiver returned HTTP 500: full");
    assert_eq!(told(201, b"[]"), "receiver returned an invalid response");
    assert_eq!(told(201, b""), "receiver returned an invalid response");
    let saved = upload_result(&response(201, br#"{"path": "/d/a"}"#)).unwrap();
    assert_eq!(saved_note(&saved), "Saved /d/a");
    let nowhere = upload_result(&response(201, b"{}")).unwrap();
    assert_eq!(saved_note(&nowhere), "Saved ");
}

fn sending(timeout: u64) -> Sending {
    Sending::new(&"AB".repeat(32), loopback(), timeout, 10).unwrap()
}

fn inspected(kind: PathKind) -> SendEvent {
    SendEvent::Inspected { kind, name: Some("a.txt".to_string()), shown: "/r/a.txt".to_string() }
}

fn healthy() -> SendEvent {
    SendEvent::Answered(HttpResponse {
        status: 200,
        body: br#"{"service": "herdr-remote-download", "status": "ok"}"#.to_vec(),
    })
}

fn over(action: SendAction) -> String {
    match action {
        SendAction::Finish(result) => result.err().unwrap().message(),
        _ => panic!("the sending goes on"),
    }
}

#[test]
fn sendings_stop_at_the_first_failure() {
    assert!(Sending::new("ab", loopback(), 5, 10).is_err());
    let failed = || SendEvent::Failed("no luck".to_string());

    assert_eq!(over(sending(5).step(failed())), "no luck");
    assert_eq!(
        over(sending(5).step(inspected(PathKind::Other))),
        "not a regular file or directory: /r/a.txt"
    );
    let mut large = sending(5);
    assert!(matches!(large.step(inspected(PathKind::RegularFile)), SendAction::Measure));
    assert_eq!(
        over(large.step(SendEvent::Measured(11))),
        "file is larger than the 10 byte transfer limit"
    );
    assert!(matches!(large.step(SendEvent::Measured(1)), SendAction::Rest));

    let mut hasty = sending(0);
    hasty.step(inspected(PathKind::RegularFile));
    assert_eq!(
        over(hasty.step(SendEvent::Measured(10))),
        "transfer timeout must be greater than zero"
    );

    let mut alone = sending(5);
    alone.step(inspected(PathKind::RegularFile));
    assert!(matches!(alone.step(SendEvent::Measured(10)), SendAction::Ask(3)));
    assert!(over(alone.step(failed())).starts_with("local receiver is unavailable through "));

    let mut stranger = sending(2);
    stranger.step(inspected(PathKind::RegularFile));
    assert!(matches!(stranger.step(SendEvent::Measured(10)), SendAction::Ask(2)));
    let other = HttpResponse { status: 200, body: b"{}".to_vec() };
    assert!(over(stranger.step(SendEvent::Answered(other))).starts_with("unexpected service "));

    let mut changed = sending(5);
    changed.step(inspected(PathKind::RegularFile));
    changed.step(SendEvent::Measured(10));
    assert!(matches!(changed.step(healthy()), SendAction::Hash));
    assert!(matches!(changed.step(SendEvent::Sent(10)), SendAction::Hash));
    match changed.step(SendEvent::Hashed(checksum_of(b"x"))) {
        SendAction::SendHead(head) => {
            assert!(head.contains(&format!("\r\nAuthorization: Bearer {}\r\n", "ab".repeat(32))));
            assert!(head.contains("\r\nContent-Length: 10\r\n"));
        }
        _ => panic!("the head is not sent"),
    }
    assert!(matches!(changed.step(SendEvent::Done), SendAction::SendBody));
    assert_eq!(
        over(changed.step(SendEvent::Sent(9))),
        "file changed while it was being transferred"
    );
}

// -------------------------------------------------------------------------------------------------
// Chosen files

#[test]
fn chosen_files_are_checked() {
    let file = |is_file: bool, length: u64, name: Option<&'static str>| ChosenFile {
        shown: "/mac/a.txt",
        is_file,
        length,
        name,
    };
    let refused = |file: ChosenFile| check_chosen_file(&file, 10).err().unwrap().message();
    assert_eq!(check_chosen_file(&file(true, 10, Some(" a.txt ")), 10).unwrap(), "a.txt");
    assert_eq!(
        refused(file(false, 10, Some("a.txt"))),
        "selected path is not a regular file: /mac/a.txt"
    );
    assert_eq!(
        refused(file(true, 11, Some("a.txt"))),
        "selected file is larger than the 10 byte transfer limit"
    );
    assert_eq!(refused(file(true, 10, None)), "selected filename is not valid UTF-8");
    assert_eq!(refused(file(true, 10, Some(".."))), "unsafe or unsupported filename");
    assert_eq!(
        check_measured(9, 10).err().unwrap().message(),
        "selected file changed while it was being read"
    );
    assert!(check_measured(10, 10).is_ok());
    assert_eq!(
        check_copied(9, 10).err().unwrap().message(),
        "selected file changed while it was being transferred"
    );
    assert!(check_copied(10, 10).is_ok());
    assert_eq!(delivery(0).err().unwrap().message(), "select at least one file");
    assert_eq!(delivery(1).unwrap(), Delivery::Single);
    assert_eq!(delivery(2).unwrap(), Delivery::Batch);
}

#[test]
fn batches_that_cannot_be_announced_are_refused() {
    let file = |length: u64| PreparedFile {
        filename: "a.txt".to_string(),
        length,
        checksum: checksum_of(b""),
    };
    let mut batch = Batch::new();
    batch.add_file(&file(5)).unwrap();
    let before = batch.response_head();
    assert_eq!(
        batch.add_file(&file(u64::MAX - 5)).err().unwrap().message(),
        "selected files are too large to transfer as one batch"
    );
    assert_eq!(batch.count(), 1);
    assert_eq!(batch.response_head(), before);
    let announced = batch.head_of(0).len() + 5;
    assert!(before.contains(&format!("\r\nContent-Length: {announced}\r\n")));
}

#[test]
fn choosing_nothing_is_an_error() {
    let token = "ab".repeat(32);
    let mut disk = Disk::default();
    let response =
        serve(&test_server(&token), &mut disk, choose_message(&token).as_bytes(), || Ok(vec![]));
    let response = read_response(&response, MAX_RESPONSE_BYTES).unwrap();
    assert_eq!(response.status, 400);
    let object = parse_reply(&response.body).unwrap();
    assert_eq!(object.text("error"), Some("select at least one file"));
}

#[test]
fn archives_are_removed_at_every_end() {
    let new = || Sending::new(&"ab".repeat(32), loopback(), 5, 10).unwrap();
    let inspected = |kind| SendEvent::Inspected {
        kind,
        name: Some("d".to_string()),
        shown: "/d".to_string(),
    };
    let failed = || SendEvent::Failed("disk on fire".to_string());

    let mut sending = new();
    assert!(matches!(sending.step(inspected(PathKind::Directory)), SendAction::Archive));
    assert!(!sending.removes_archive());
    assert!(matches!(sending.step(failed()), SendAction::Finish(Err(_))));
    assert!(sending.removes_archive());

    let mut sending = new();
    sending.step(inspected(PathKind::Directory));
    sending.step(SendEvent::Done);
    assert!(matches!(sending.step(SendEvent::Measured(11)), SendAction::Finish(Err(_))));
    assert!(sending.removes_archive());

    let mut sending = new();
    sending.step(inspected(PathKind::RegularFile));
    assert!(matches!(sending.step(failed()), SendAction::Finish(Err(_))));
    assert!(!sending.removes_archive());

    let mut sending = new();
    assert!(matches!(sending.step(inspected(PathKind::Other)), SendAction::Finish(Err(_))));
    assert!(!sending.removes_archive());
}
