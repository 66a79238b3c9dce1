//! How a file is sent to the receiver.
//!
//! A sending is driven from outside: it says what is to be done next, and is told what came of it.
use crate::digest;
use crate::encoding;
use crate::error;
use crate::error::{ErrorKind, TransferError};
use crate::filename;
use crate::http;
use crate::http::HttpResponse;
use crate::json;
use crate::json::JsonObject;
use crate::receiver;
use crate::sender;
use crate::sender::{
    check_receiver, check_sent, check_size, choose_source, preflight_timeout, receiver_unavailable,
    upload_head, upload_result, PathKind, ReceiverEndpoint, Source,
};
use crate::text;
use crate::token;
use crate::token::validate_token;
use crate::upload;
use vstd::prelude::*;
use vstd::utf8::*;

verus! {

/// Where a sending stands.
#[derive(Clone, Copy, Debug, PartialEq, Eq, Structural)]
pub enum SendPhase {
    /// The path is being looked at.
    Inspecting,
    /// The directory is being archived.
    Archiving,
    /// What is sent is being measured.
    Measuring,
    /// The receiver is being asked for its health.
    Asking,
    /// The checksum is being taken.
    Hashing,
    /// The head of the upload is being sent.
    SendingHead,
    /// The body of the upload is being sent.
    SendingBody,
    /// The answer is awaited.
    Awaiting,
    /// All is said.
    Finished,
}

/// What came of what was to be done.
pub enum SendEvent {
    /// The path stands for this, its final component is this where it is UTF-8, and it is shown
    /// like this.
    Inspected { kind: PathKind, name: Option<String>, shown: String },
    /// It was done.
    Done,
    /// What is sent has so many bytes.
    Measured(u64),
    /// What is sent has this checksum.
    Hashed(String),
    /// So many bytes were sent.
    Sent(u64),
    /// This was answered.
    Answered(HttpResponse),
    /// It failed, in these words.
    Failed(String),
}

/// The model of an event.
pub enum SendEventModel {
    Inspected { kind: PathKind, name: Option<Seq<char>>, shown: Seq<char> },
    Done,
    Measured(nat),
    Hashed(Seq<char>),
    Sent(nat),
    Answered { status: nat, body: Seq<u8> },
    Failed(Seq<char>),
}

/// The model of a text that may be missing.
pub open spec fn name_option(name: Option<String>) -> Option<Seq<char>> {
    match name {
        Some(name) => Some(name@),
        None => None,
    }
}

impl View for SendEvent {
    type V = SendEventModel;

    open spec fn view(&self) -> SendEventModel {
        match self {
            SendEvent::Inspected { kind, name, shown } => SendEventModel::Inspected {
                kind: *kind,
                name: name_option(*name),
                shown: shown@,
            },
            SendEvent::Done => SendEventModel::Done,
            SendEvent::Measured(length) => SendEventModel::Measured(*length as nat),
            SendEvent::Hashed(checksum) => SendEventModel::Hashed(checksum@),
            SendEvent::Sent(count) => SendEventModel::Sent(*count as nat),
            SendEvent::Answered(response) => SendEventModel::Answered {
                status: response.status as nat,
                body: response.body@,
            },
            SendEvent::Failed(words) => SendEventModel::Failed(words@),
        }
    }
}

/// What is to be done next.
pub enum SendAction {
    /// Look at the path.
    Inspect,
    /// Archive the directory.
    Archive,
    /// Measure the file or the archive.
    Measure,
    /// Ask the receiver for its health, and wait for at most so many seconds.
    Ask(u64),
    /// Take the checksum of the file or the archive.
    Hash,
    /// Connect to the receiver and send this.
    SendHead(String),
    /// Send the file or the archive.
    SendBody,
    /// Read the answer.
    ReadAnswer,
    /// The sending is over.
    Finish(Result<JsonObject, TransferError>),
    /// Nothing is left to be done.
    Rest,
}

/// The model of an action.
pub enum SendActionModel {
    Inspect,
    Archive,
    Measure,
    Ask(nat),
    Hash,
    SendHead(Seq<char>),
    SendBody,
    ReadAnswer,
    Finish(Result<Map<Seq<char>, json::JsonFieldModel>, error::Fault>),
    Rest,
}

impl View for SendAction {
    type V = SendActionModel;

    open spec fn view(&self) -> SendActionModel {
        match self {
            SendAction::Inspect => SendActionModel::Inspect,
            SendAction::Archive => SendActionModel::Archive,
            SendAction::Measure => SendActionModel::Measure,
            SendAction::Ask(seconds) => SendActionModel::Ask(*seconds as nat),
            SendAction::Hash => SendActionModel::Hash,
            SendAction::SendHead(head) => SendActionModel::SendHead(head@),
            SendAction::SendBody => SendActionModel::SendBody,
            SendAction::ReadAnswer => SendActionModel::ReadAnswer,
            SendAction::Finish(result) => SendActionModel::Finish(sender::object_result(*result)),
            SendAction::Rest => SendActionModel::Rest,
        }
    }
}

/// The model of a sending.
#[verifier::ext_equal]
pub struct SendState {
    pub token: Seq<char>,
    /// The receiver, as it is shown.
    pub receiver: Seq<char>,
    pub timeout: nat,
    pub max: nat,
    pub phase: SendPhase,
    pub filename: Seq<char>,
    pub extract: bool,
    pub length: nat,
    pub checksum: Seq<char>,
}

/// A sending that begins.
pub open spec fn send_start(token: Seq<char>, receiver: Seq<char>, timeout: nat, max: nat) ->
    SendState {
    SendState {
        token,
        receiver,
        timeout,
        max,
        phase: SendPhase::Inspecting,
        filename: seq![],
        extract: false,
        length: 0,
        checksum: seq![],
    }
}

/// The head of the upload.
pub open spec fn head_of(state: SendState) -> Seq<char> {
    receiver::request_line("POST"@, http::TRANSFER_PATH@) + http::header_block(
        sender::upload_fields(
            state.token,
            state.length,
            encoding::base64url(encode_utf8(state.filename)),
            state.extract,
            state.checksum,
        ),
    )
}

/// What a sending waits for.
pub open spec fn send_pending(state: SendState) -> SendActionModel {
    match state.phase {
        SendPhase::Inspecting => SendActionModel::Inspect,
        SendPhase::Archiving => SendActionModel::Archive,
        SendPhase::Measuring => SendActionModel::Measure,
        SendPhase::Asking => SendActionModel::Ask(
            match sender::preflight(state.timeout) {
                Ok(seconds) => seconds,
                Err(_) => 0,
            },
        ),
        SendPhase::Hashing => SendActionModel::Hash,
        SendPhase::SendingHead => SendActionModel::SendHead(head_of(state)),
        SendPhase::SendingBody => SendActionModel::SendBody,
        SendPhase::Awaiting => SendActionModel::ReadAnswer,
        SendPhase::Finished => SendActionModel::Rest,
    }
}

/// A sending goes on in another phase.
pub open spec fn send_enter(state: SendState, phase: SendPhase) -> (SendState, SendActionModel) {
    let next = SendState { phase, ..state };
    (next, send_pending(next))
}

/// A sending ends.
pub open spec fn send_finish(
    state: SendState,
    result: Result<Map<Seq<char>, json::JsonFieldModel>, error::Fault>,
) -> (SendState, SendActionModel) {
    (SendState { phase: SendPhase::Finished, ..state }, SendActionModel::Finish(result))
}

/// How a sending goes on. An event that does not answer what the sending waits for changes nothing.
pub open spec fn send_step(state: SendState, event: SendEventModel) -> (
    SendState,
    SendActionModel,
) {
    match (state.phase, event) {
        (SendPhase::Finished, _) => (state, send_pending(state)),
        (SendPhase::Asking, SendEventModel::Failed(_)) => send_finish(
            state,
            Err(error::fault_about(ErrorKind::ReceiverUnavailable, state.receiver)),
        ),
        (_, SendEventModel::Failed(words)) => send_finish(
            state,
            Err(error::fault_about(ErrorKind::Outside, words)),
        ),
        (SendPhase::Inspecting, SendEventModel::Inspected { kind, name, shown }) => match sender::source_of(
            kind,
            name,
            shown,
        ) {
            Err(fault) => send_finish(state, Err(fault)),
            Ok((filename, extract)) => send_enter(
                SendState { filename, extract, ..state },
                if extract {
                    SendPhase::Archiving
                } else {
                    SendPhase::Measuring
                },
            ),
        },
        (SendPhase::Archiving, SendEventModel::Done) => send_enter(state, SendPhase::Measuring),
        (SendPhase::Measuring, SendEventModel::Measured(length)) => if length > state.max {
            send_finish(
                state,
                Err(error::fault_about(ErrorKind::FileTooLarge, text::decimal(state.max))),
            )
        } else {
            match sender::preflight(state.timeout) {
                Err(fault) => send_finish(state, Err(fault)),
                Ok(_) => send_enter(SendState { length, ..state }, SendPhase::Asking),
            }
        },
        (SendPhase::Asking, SendEventModel::Answered { status, body }) => match sender::health_verdict(
            state.receiver,
            status,
            json::reply_object(body),
        ) {
            Err(fault) => send_finish(state, Err(fault)),
            Ok(_) => send_enter(state, SendPhase::Hashing),
        },
        (SendPhase::Hashing, SendEventModel::Hashed(checksum)) => send_enter(
            SendState { checksum, ..state },
            SendPhase::SendingHead,
        ),
        (SendPhase::SendingHead, SendEventModel::Done) => send_enter(state, SendPhase::SendingBody),
        (SendPhase::SendingBody, SendEventModel::Sent(count)) => if count == state.length {
            send_enter(state, SendPhase::Awaiting)
        } else {
            send_finish(state, Err(error::fault(ErrorKind::FileChanged)))
        },
        (SendPhase::Awaiting, SendEventModel::Answered { status, body }) => send_finish(
            state,
            sender::upload_verdict(status, json::reply_object(body)),
        ),
        _ => (state, send_pending(state)),
    }
}

/// The archive of a directory is to be removed: the sending is over, and a directory was archived,
/// or was to be.
pub open spec fn is_archive_due(state: SendState) -> bool {
    state.phase == SendPhase::Finished && state.extract
}

/// A file that is being sent.
pub struct Sending {
    token: String,
    endpoint: ReceiverEndpoint,
    timeout: u64,
    max: u64,
    phase: SendPhase,
    source: Source,
    length: u64,
    checksum: String,
}

impl View for Sending {
    type V = SendState;

    closed spec fn view(&self) -> SendState {
        SendState {
            token: self.token@,
            receiver: self.endpoint.shown(),
            timeout: self.timeout as nat,
            max: self.max as nat,
            phase: self.phase,
            filename: self.source.filename@,
            extract: self.source.extract,
            length: self.length as nat,
            checksum: self.checksum@,
        }
    }
}

/// A name can be encoded for a header.
pub open spec fn is_encodable(name: Seq<char>) -> bool {
    encoding::base64_length(encode_utf8(name).len()) <= isize::MAX
}

impl Sending {
    pub closed spec fn well_formed(&self) -> bool {
        is_encodable(self.source.filename@)
    }

    /// A sending begins, with a token.
    pub fn new(token: &str, endpoint: ReceiverEndpoint, timeout_seconds: u64, max_bytes: u64) -> (r:
        Result<Self, TransferError>)
        ensures
            match r {
                Ok(sending) => sending.well_formed() && (token::token_of(token@) matches Ok(kept)
                    && sending@ == send_start(
                    kept,
                    endpoint.shown(),
                    timeout_seconds as nat,
                    max_bytes as nat,
                )),
                Err(error) => token::token_of(token@) == Err::<Seq<char>, error::Fault>(error@),
            },
    {
        let token = match validate_token(token) {
            Ok(token) => token,
            Err(error) => return Err(error),
        };
        let sending = Sending {
            token,
            endpoint,
            timeout: timeout_seconds,
            max: max_bytes,
            phase: SendPhase::Inspecting,
            source: Source { filename: String::new(), extract: false },
            length: 0,
            checksum: String::new(),
        };
        proof {
            assert(sending.source.filename@ =~= seq![]);
            assert(sending.checksum@ =~= seq![]);
            assert(encode_utf8(sending.source.filename@).len() == 0);
        }
        Ok(sending)
    }

    /// What the sending waits for.
    pub fn pending(&self) -> (r: SendAction)
        requires
            self.well_formed(),
        ensures
            r@ == send_pending(self@),
    {
        match self.phase {
            SendPhase::Inspecting => SendAction::Inspect,
            SendPhase::Archiving => SendAction::Archive,
            SendPhase::Measuring => SendAction::Measure,
            SendPhase::Asking => match preflight_timeout(self.timeout) {
                Ok(seconds) => SendAction::Ask(seconds),
                Err(_) => SendAction::Ask(0),
            },
            SendPhase::Hashing => SendAction::Hash,
            SendPhase::SendingHead => SendAction::SendHead(
                upload_head(
                    self.token.as_str(),
                    self.length,
                    &self.source,
                    self.checksum.as_str(),
                ),
            ),
            SendPhase::SendingBody => SendAction::SendBody,
            SendPhase::Awaiting => SendAction::ReadAnswer,
            SendPhase::Finished => SendAction::Rest,
        }
    }

    /// Whether what is sent is an archive of a directory.
    pub fn is_archive(&self) -> (r: bool)
        ensures
            r == self@.extract,
    {
        self.source.extract
    }

    /// Whether there may be an archive, and it is to be removed now.
    pub fn removes_archive(&self) -> (r: bool)
        ensures
            r == is_archive_due(self@),
    {
        self.phase == SendPhase::Finished && self.source.extract
    }

    fn enter(&mut self, phase: SendPhase) -> (r: SendAction)
        requires
            old(self).well_formed(),
        ensures
            final(self).well_formed(),
            (final(self)@, r@) == send_enter(old(self)@, phase),
    {
        self.phase = phase;
        self.pending()
    }

    fn finish(&mut self, result: Result<JsonObject, TransferError>) -> (r: SendAction)
        requires
            old(self).well_formed(),
        ensures
            final(self).well_formed(),
            (final(self)@, r@) == send_finish(old(self)@, sender::object_result(result)),
    {
        self.phase = SendPhase::Finished;
        SendAction::Finish(result)
    }

    /// Goes on from what came of what was to be done.
    pub fn step(&mut self, event: SendEvent) -> (r: SendAction)
        requires
            old(self).well_formed(),
            event@ matches SendEventModel::Inspected { name: Some(name), .. } ==> is_encodable(
                filename::archive_name(name),
            ) && is_encodable(name),
        ensures
            final(self).well_formed(),
            (final(self)@, r@) == send_step(old(self)@, event@),
    {
        if self.phase == SendPhase::Finished {
            return SendAction::Rest;
        }
        match event {
            SendEvent::Failed(words) => if self.phase == SendPhase::Asking {
                let error = receiver_unavailable(&self.endpoint);
                self.finish(Err(error))
            } else {
                self.finish(Err(TransferError::about(ErrorKind::Outside, words)))
            },
            SendEvent::Inspected { kind, name, shown } => if self.phase == SendPhase::Inspecting {
                let name = match &name {
                    Some(name) => Some(name.as_str()),
                    None => None,
                };
                match choose_source(kind, name, shown.as_str()) {
                    Err(error) => self.finish(Err(error)),
                    Ok(source) => {
                        let phase = if source.extract {
                            SendPhase::Archiving
                        } else {
                            SendPhase::Measuring
                        };
                        self.source = source;
                        self.enter(phase)
                    },
                }
            } else {
                self.pending()
            },
            SendEvent::Done => match self.phase {
                SendPhase::Archiving => self.enter(SendPhase::Measuring),
                SendPhase::SendingHead => self.enter(SendPhase::SendingBody),
                _ => self.pending(),
            },
            SendEvent::Measured(length) => if self.phase == SendPhase::Measuring {
                match check_size(length, self.max) {
                    Err(error) => self.finish(Err(error)),
                    Ok(_) => match preflight_timeout(self.timeout) {
                        Err(error) => self.finish(Err(error)),
                        Ok(_) => {
                            self.length = length;
                            self.enter(SendPhase::Asking)
                        },
                    },
                }
            } else {
                self.pending()
            },
            SendEvent::Hashed(checksum) => if self.phase == SendPhase::Hashing {
                self.checksum = checksum;
                self.enter(SendPhase::SendingHead)
            } else {
                self.pending()
            },
            SendEvent::Sent(count) => if self.phase == SendPhase::SendingBody {
                match check_sent(count, self.length) {
                    Err(error) => self.finish(Err(error)),
                    Ok(_) => self.enter(SendPhase::Awaiting),
                }
            } else {
                self.pending()
            },
            SendEvent::Answered(response) => match self.phase {
                SendPhase::Asking => match check_receiver(&self.endpoint, &response) {
                    Err(error) => self.finish(Err(error)),
                    Ok(_) => self.enter(SendPhase::Hashing),
                },
                SendPhase::Awaiting => {
                    let result = upload_result(&response);
                    self.finish(result)
                },
                _ => self.pending(),
            },
        }
    }
}

// ---------------------------------------------------------------------------------------------
// Laws

/// Where a sending stands after some events.
pub open spec fn send_run(state: SendState, events: Seq<SendEventModel>) -> SendState
    decreases events.len(),
{
    if events.len() == 0 {
        state
    } else {
        send_step(send_run(state, events.drop_last()), events.last()).0
    }
}

/// A phase in which the receiver has been asked.
pub open spec fn is_asked(phase: SendPhase) -> bool {
    phase == SendPhase::Hashing || phase == SendPhase::SendingHead || phase
        == SendPhase::SendingBody || phase == SendPhase::Awaiting
}

/// An answer that only the receiver gives.
pub open spec fn is_healthy_answer(event: SendEventModel) -> bool {
    event matches SendEventModel::Answered { status, body } && sender::is_healthy(
        status,
        json::reply_object(body),
    )
}

/// Nothing is sent unasked: before the head of an upload is sent, what is sent was found to be
/// within the limit, and the receiver has answered that it is there. The token and the limit stay
/// what they were.
pub proof fn law_nothing_is_sent_unasked(start: SendState, events: Seq<SendEventModel>)
    requires
        start.phase == SendPhase::Inspecting,
    ensures
        ({
            let state = send_run(start, events);
            &&& state.token == start.token
            &&& state.max == start.max
            &&& state.receiver == start.receiver
            &&& state.timeout == start.timeout
            &&& is_asked(state.phase) ==> state.length <= state.max && state.timeout > 0
                && exists|i: int| 0 <= i < events.len() && is_healthy_answer(#[trigger] events[i])
            &&& state.phase == SendPhase::Asking ==> state.length <= state.max && state.timeout > 0
        }),
    decreases events.len(),
{
    if events.len() > 0 {
        let front = events.drop_last();
        law_nothing_is_sent_unasked(start, front);
        let before = send_run(start, front);
        let state = send_run(start, events);
        if is_asked(state.phase) {
            if is_asked(before.phase) {
                let i = choose|i: int| 0 <= i < front.len() && is_healthy_answer(#[trigger] front[i]);
                assert(events[i] == front[i]);
                assert(is_healthy_answer(events[i]));
            } else {
                assert(is_healthy_answer(events[events.len() - 1]));
            }
        }
    }
}

/// Success is told only where the receiver answered that the file was created, after as many bytes
/// as announced were sent.
pub proof fn law_success_means_created(state: SendState, event: SendEventModel)
    requires
        send_step(state, event).1 matches SendActionModel::Finish(result) && result is Ok,
    ensures
        state.phase == SendPhase::Awaiting,
        event matches SendEventModel::Answered { status, body } && status == 201
            && json::reply_object(body) == Some(
            (send_step(state, event).1->Finish_0)->Ok_0,
        ),
{
}

/// A sending that is over stays so.
pub proof fn law_finished_sending_rests(state: SendState, event: SendEventModel)
    requires
        state.phase == SendPhase::Finished,
    ensures
        send_step(state, event) == (state, SendActionModel::Rest),
{
}

/// After so many of some events the sending waits for an archive.
pub open spec fn archives_after(start: SendState, events: Seq<SendEventModel>, n: int) -> bool {
    0 <= n <= events.len() && send_run(start, events.take(n)).phase == SendPhase::Archiving
}

/// The archive is removed at every end of a sending in which a directory was archived or was to be,
/// whether it succeeded or failed; and only there.
pub proof fn law_archive_is_removed_at_every_end(start: SendState, events: Seq<SendEventModel>)
    requires
        start.phase == SendPhase::Inspecting,
        !start.extract,
    ensures
        ({
            let state = send_run(start, events);
            is_archive_due(state) <==> state.phase == SendPhase::Finished && exists|n: int|
                #[trigger] archives_after(start, events, n)
        }),
{
    lemma_archive_is_noted(start, events);
}

proof fn lemma_archive_is_noted(start: SendState, events: Seq<SendEventModel>)
    requires
        start.phase == SendPhase::Inspecting,
        !start.extract,
    ensures
        ({
            let state = send_run(start, events);
            &&& state.extract <==> exists|n: int| #[trigger] archives_after(start, events, n)
            &&& state.phase == SendPhase::Inspecting ==> !state.extract
            &&& state.phase == SendPhase::Archiving ==> state.extract
        }),
    decreases events.len(),
{
    let state = send_run(start, events);
    assert(events.take(events.len() as int) =~= events);
    if events.len() == 0 {
        assert forall|n: int| !#[trigger] archives_after(start, events, n) by {
            if 0 <= n <= events.len() {
                assert(events.take(n) =~= events);
            }
        }
    } else {
        let front = events.drop_last();
        lemma_archive_is_noted(start, front);
        let before = send_run(start, front);
        let count = events.len() as int;
        if state.extract {
            if before.extract {
                let n = choose|n: int| #[trigger] archives_after(start, front, n);
                assert(events.take(n) =~= front.take(n));
                assert(archives_after(start, events, n));
            } else {
                assert(archives_after(start, events, count));
            }
        } else {
            assert forall|n: int| !#[trigger] archives_after(start, events, n) by {
                if 0 <= n < count {
                    assert(events.take(n) =~= front.take(n));
                    assert(!archives_after(start, front, n));
                }
            }
        }
    }
}

/// A file that goes through without a hitch is announced as it is: the head tells the receiver the
/// name, the length and the checksum that were found, and the receiver's answer is the result.
pub proof fn law_smooth_sending_succeeds(
    start: SendState,
    kind: PathKind,
    name: Seq<char>,
    shown: Seq<char>,
    length: nat,
    health: (nat, Seq<u8>),
    checksum: Seq<char>,
    answer: (nat, Seq<u8>),
    object: Map<Seq<char>, json::JsonFieldModel>,
)
    requires
        start.phase == SendPhase::Inspecting,
        kind != PathKind::Other,
        length <= start.max,
        start.timeout > 0,
        sender::is_healthy(health.0, json::reply_object(health.1)),
        answer.0 == 201,
        json::reply_object(answer.1) == Some(object),
    ensures
        ({
            let extract = kind == PathKind::Directory;
            let filename = if extract {
                filename::archive_name(name)
            } else {
                name
            };
            let inspected = send_step(
                start,
                SendEventModel::Inspected { kind, name: Some(name), shown },
            ).0;
            let ready = if extract {
                send_step(inspected, SendEventModel::Done).0
            } else {
                inspected
            };
            let measured = send_step(ready, SendEventModel::Measured(length));
            let asked = send_step(
                measured.0,
                SendEventModel::Answered { status: health.0, body: health.1 },
            );
            let hashed = send_step(asked.0, SendEventModel::Hashed(checksum));
            let headed = send_step(hashed.0, SendEventModel::Done);
            let sent = send_step(headed.0, SendEventModel::Sent(length));
            let answered = send_step(
                sent.0,
                SendEventModel::Answered { status: answer.0, body: answer.1 },
            );
            &&& measured.1 == SendActionModel::Ask(sender::preflight(start.timeout)->Ok_0)
            &&& asked.1 == SendActionModel::Hash
            &&& hashed.1 == SendActionModel::SendHead(
                head_of(SendState { filename, extract, length, checksum, ..hashed.0 }),
            )
            &&& headed.1 == SendActionModel::SendBody
            &&& sent.1 == SendActionModel::ReadAnswer
            &&& answered.1 == SendActionModel::Finish(Ok(object))
        }),
{
}

/// A file that is sent arrives: the receiver with the same token accepts the head that describes
/// it, saves its content whatever the pieces it comes in, and the sender understands where.
pub proof fn law_sent_file_is_saved_and_told(
    config: receiver::ServerConfig,
    filename: Seq<char>,
    extract: bool,
    content: Seq<u8>,
    pieces: Seq<Seq<u8>>,
    path: Seq<char>,
)
    requires
        token::is_token(config.token@),
        content.len() <= config.max_bytes,
        digest::is_checksum(digest::checksum(content)),
        encoding::base64_length(encode_utf8(filename).len()) <= encoding::MAX_ENCODED_BYTES,
        filename::clean_name(filename) is Ok,
        forall|i: int|
            0 <= i < pieces.len() ==> 0 < (#[trigger] pieces[i]).len()
                <= receiver::COPY_BUFFER_BYTES,
        upload::pieces_joined(pieces) == content,
    ensures
        ({
            let clean = filename::clean_name(filename)->Ok_0;
            let encoded = encoding::base64url(encode_utf8(filename));
            let headers = sender::upload_headers(
                config.token@,
                content.len(),
                encoded,
                extract,
                digest::checksum(content),
            );
            let order = receiver::UploadOrder {
                length: content.len(),
                filename: clean,
                checksum: digest::checksum(content),
                extract,
            };
            let synced = upload::upload_run(
                upload::upload_start(order),
                upload::smooth_events(pieces).push(upload::EventModel::Done),
            );
            let reply = upload::saved_reply_model(order, path);
            let object = json::read_back(reply.members);
            &&& receiver::decision(config, "POST"@, http::TRANSFER_PATH@, headers)
                == receiver::DecisionModel::Receive(order)
            &&& synced.received == content
            &&& upload::upload_step(synced, upload::EventModel::Saved(path)).1 == (
            upload::ActionModel::Finish { remove_temporary: extract, reply })
            &&& sender::upload_verdict(reply.status.number(), Some(object)) == Ok::<
                _,
                error::Fault,
            >(object)
            &&& sender::saved_note_of(object) == "Saved "@ + path
            &&& json::member_count(object, "bytes"@) == Some(content.len())
            &&& json::member_text(object, "sha256"@) == Some(digest::checksum(content))
        }),
{
    let clean = filename::clean_name(filename)->Ok_0;
    let encoded = encoding::base64url(encode_utf8(filename));
    sender::lemma_cleanable_is_nonempty(filename);
    encoding::law_header_value_is_read_back(filename);
    let order = receiver::UploadOrder {
        length: content.len(),
        filename: clean,
        checksum: digest::checksum(content),
        extract,
    };
    reveal_strlit("GET");
    reveal_strlit("POST");
    assert("GET"@.len() == 3 && "POST"@.len() == 4);
    sender::lemma_upload_fields(
        config.token@,
        content.len(),
        encoded,
        extract,
        digest::checksum(content),
    );
    text::law_decimal_is_read_back(content.len(), u64::MAX as nat);
    upload::law_complete_upload_is_saved(order, pieces, path);
    upload::lemma_smooth_events(order, pieces);
    let events = upload::smooth_events(pieces).push(upload::EventModel::Done);
    assert(events.drop_last() =~= upload::smooth_events(pieces));
    sender::law_saved_reply_is_understood(order, path);
}

/// A path is looked at first; a directory is archived, a regular file is measured at once.
pub proof fn law_directories_are_archived_first(
    start: SendState,
    name: Seq<char>,
    shown: Seq<char>,
)
    requires
        start.phase == SendPhase::Inspecting,
    ensures
        send_pending(start) == SendActionModel::Inspect,
        ({
            let file = send_step(
                start,
                SendEventModel::Inspected {
                    kind: PathKind::RegularFile,
                    name: Some(name),
                    shown,
                },
            );
            &&& file.1 == SendActionModel::Measure
            &&& file.0.filename == name
            &&& !file.0.extract
        }),
        ({
            let directory = send_step(
                start,
                SendEventModel::Inspected { kind: PathKind::Directory, name: Some(name), shown },
            );
            &&& directory.1 == SendActionModel::Archive
            &&& directory.0.filename == name + ".tar.gz"@
            &&& directory.0.extract
            &&& send_step(directory.0, SendEventModel::Done).1 == SendActionModel::Measure
        }),
        send_step(
            start,
            SendEventModel::Inspected { kind: PathKind::Other, name: Some(name), shown },
        ).1 == SendActionModel::Finish(
            Err(error::fault_about(ErrorKind::NotTransferable, shown)),
        ),
{
}

/// Whatever goes wrong ends a sending, and is told for what it is: a file beyond the limit, a time
/// of zero, a receiver that is not there, another service in its place, a file that changed, or a
/// failure outside, in its own words.
pub proof fn law_troubles_end_a_sending(
    state: SendState,
    length: nat,
    words: Seq<char>,
    status: nat,
    body: Seq<u8>,
)
    ensures
        state.phase == SendPhase::Measuring && length > state.max ==> send_step(
            state,
            SendEventModel::Measured(length),
        ).1 == SendActionModel::Finish(
            Err(error::fault_about(ErrorKind::FileTooLarge, text::decimal(state.max))),
        ),
        state.phase == SendPhase::Measuring && length <= state.max && state.timeout == 0
            ==> send_step(state, SendEventModel::Measured(length)).1 == SendActionModel::Finish(
            Err(error::fault(ErrorKind::ZeroTimeout)),
        ),
        state.phase == SendPhase::Measuring && length <= state.max && 0 < state.timeout <= 3
            ==> send_step(state, SendEventModel::Measured(length)).1 == SendActionModel::Ask(
            state.timeout,
        ),
        state.phase == SendPhase::Measuring && length <= state.max && state.timeout > 3
            ==> send_step(state, SendEventModel::Measured(length)).1 == SendActionModel::Ask(3),
        state.phase == SendPhase::Asking ==> send_step(state, SendEventModel::Failed(words)).1
            == SendActionModel::Finish(
            Err(error::fault_about(ErrorKind::ReceiverUnavailable, state.receiver)),
        ),
        state.phase == SendPhase::Asking && status != 200 ==> send_step(
            state,
            SendEventModel::Answered { status, body },
        ).1 == SendActionModel::Finish(
            Err(error::fault_about(ErrorKind::UnexpectedService, state.receiver)),
        ),
        state.phase == SendPhase::SendingBody && length != state.length ==> send_step(
            state,
            SendEventModel::Sent(length),
        ).1 == SendActionModel::Finish(Err(error::fault(ErrorKind::FileChanged))),
        state.phase != SendPhase::Asking && state.phase != SendPhase::Finished ==> send_step(
            state,
            SendEventModel::Failed(words),
        ).1 == SendActionModel::Finish(Err(error::fault_about(ErrorKind::Outside, words))),
{
}

/// The head of an upload goes to the place for files, and tells the token, the length, the name and
/// the checksum of what is sent, and whether it is an archive.
pub proof fn law_head_tells_what_is_sent(state: SendState)
    requires
        token::is_token(state.token),
        state.length <= u64::MAX,
        state.filename.len() > 0,
        encoding::base64_length(encode_utf8(state.filename).len()) <= 1024,
        digest::is_checksum(state.checksum),
    ensures
        text::begins_with(head_of(state), "POST /v1/files HTTP/1.1\r\n"@),
        ({
            let headers = sender::upload_headers(
                state.token,
                state.length,
                encoding::base64url(encode_utf8(state.filename)),
                state.extract,
                state.checksum,
            );
            &&& receiver::request_run(
                receiver::RequestProgress::Started,
                text::lines(head_of(state)),
            ) == (receiver::RequestProgress::Complete {
                method: "POST"@,
                target: "/v1/files"@,
                headers,
            })
            &&& http::lookup(headers, "authorization"@) == Some("Bearer "@ + state.token)
            &&& http::lookup(headers, "content-length"@) == Some(text::decimal(state.length))
            &&& http::lookup(headers, "x-herdr-filename"@) == Some(
                encoding::base64url(encode_utf8(state.filename)),
            )
            &&& http::lookup(headers, "x-herdr-sha256"@) == Some(state.checksum)
            &&& http::lookup(headers, "x-herdr-extract"@) is Some <==> state.extract
        }),
{
    let encoded = encoding::base64url(encode_utf8(state.filename));
    let fields = sender::upload_fields(
        state.token,
        state.length,
        encoded,
        state.extract,
        state.checksum,
    );
    encoding::law_header_value_is_read_back(state.filename);
    sender::lemma_upload_fields(
        state.token,
        state.length,
        encoded,
        state.extract,
        state.checksum,
    );
    reveal_strlit("POST /v1/files HTTP/1.1\r\n");
    reveal_strlit("POST");
    reveal_strlit(" ");
    reveal_strlit("/v1/files");
    reveal_strlit(" HTTP/1.1\r\n");
    let line = receiver::request_line("POST"@, http::TRANSFER_PATH@);
    assert("POST /v1/files HTTP/1.1\r\n"@ =~= line);
    assert(crate::protocol::is_name_text("POST"@));
    assert(crate::protocol::is_name_text(http::TRANSFER_PATH@));
    let none: Seq<char> = seq![];
    receiver::law_request_is_read_back("POST"@, http::TRANSFER_PATH@, fields, none);
    assert(line + (http::header_block(fields) + none) =~= head_of(state));
    text::law_fronts_and_backs_are_recognised(line, http::header_block(fields));
}

} // verus!
