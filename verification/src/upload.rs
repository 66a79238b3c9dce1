//! How the receiver takes in an upload.
//!
//! An upload is driven from outside: it says what is to be done next, and is told what came of it.
use crate::digest;
use crate::digest::Checksum;
use crate::encoding::constant_time_eq;
use crate::filename;
use crate::filename::extraction_stem_of;
use crate::json;
use crate::json::{count_member, flag_member, text_member, ReplyMember};
use crate::protocol;
use crate::protocol::{error_reply, Reply, Status};
use crate::receiver;
use crate::receiver::{UploadRequest, COPY_BUFFER_BYTES};
use vstd::prelude::*;
use vstd::utf8::*;

verus! {

/// Where an upload stands.
#[derive(Clone, Copy, Debug, PartialEq, Eq, Structural)]
pub enum Phase {
    /// The destination is being made ready.
    Preparing,
    /// The temporary file is being created.
    Creating,
    /// A piece of the body is being read.
    Receiving,
    /// The piece is being written to the temporary file.
    Writing,
    /// The temporary file is being flushed to disk.
    Syncing,
    /// The file is being put in its place.
    Saving,
    /// All is said.
    Finished,
}

/// What came of what was to be done.
pub enum Event {
    /// It was done.
    Done,
    /// A piece of the body was read; an empty one means that the body ended.
    Chunk(Vec<u8>),
    /// The file stands at this path.
    Saved(String),
    /// It failed, in these words.
    Failed(String),
}

/// The model of an event.
pub enum EventModel {
    Done,
    Chunk(Seq<u8>),
    Saved(Seq<char>),
    Failed(Seq<char>),
}

impl View for Event {
    type V = EventModel;

    open spec fn view(&self) -> EventModel {
        match self {
            Event::Done => EventModel::Done,
            Event::Chunk(bytes) => EventModel::Chunk(bytes@),
            Event::Saved(path) => EventModel::Saved(path@),
            Event::Failed(detail) => EventModel::Failed(detail@),
        }
    }
}

/// What is to be done next.
pub enum Action {
    /// Make the destination directory ready.
    PrepareDestination,
    /// Create a temporary file in it.
    CreateTemporary,
    /// Read at most so many bytes of the body.
    Read(usize),
    /// Write the bytes that were read to the temporary file.
    Write,
    /// Flush the temporary file to disk.
    Sync,
    /// Extract the temporary file into a new directory of this name.
    Extract(String),
    /// Give the temporary file this name, or the first free one that is derived from it.
    Commit(String),
    /// Remove the temporary file if so told, and send the reply.
    Finish { remove_temporary: bool, reply: Reply },
    /// Nothing is left to be done.
    Rest,
}

/// The model of an action.
pub enum ActionModel {
    PrepareDestination,
    CreateTemporary,
    Read(nat),
    Write,
    Sync,
    Extract(Seq<char>),
    Commit(Seq<char>),
    Finish { remove_temporary: bool, reply: protocol::ReplyModel },
    Rest,
}

impl View for Action {
    type V = ActionModel;

    open spec fn view(&self) -> ActionModel {
        match self {
            Action::PrepareDestination => ActionModel::PrepareDestination,
            Action::CreateTemporary => ActionModel::CreateTemporary,
            Action::Read(wanted) => ActionModel::Read(*wanted as nat),
            Action::Write => ActionModel::Write,
            Action::Sync => ActionModel::Sync,
            Action::Extract(name) => ActionModel::Extract(name@),
            Action::Commit(name) => ActionModel::Commit(name@),
            Action::Finish { remove_temporary, reply } => ActionModel::Finish {
                remove_temporary: *remove_temporary,
                reply: reply@,
            },
            Action::Rest => ActionModel::Rest,
        }
    }
}

/// The model of an upload: what was asked for, where it stands, what was received, and whether
/// there is a temporary file.
#[verifier::ext_equal]
pub struct UploadState {
    pub order: receiver::UploadOrder,
    pub phase: Phase,
    pub received: Seq<u8>,
    pub temporary: bool,
}

/// An upload that begins.
pub open spec fn upload_start(order: receiver::UploadOrder) -> UploadState {
    UploadState { order, phase: Phase::Preparing, received: seq![], temporary: false }
}

/// How many bytes are to be read next.
pub open spec fn wanted(state: UploadState) -> nat {
    let remaining = state.order.length - state.received.len();
    if remaining < COPY_BUFFER_BYTES {
        if remaining < 0 {
            0
        } else {
            remaining as nat
        }
    } else {
        COPY_BUFFER_BYTES as nat
    }
}

/// What an upload waits for.
pub open spec fn pending(state: UploadState) -> ActionModel {
    match state.phase {
        Phase::Preparing => ActionModel::PrepareDestination,
        Phase::Creating => ActionModel::CreateTemporary,
        Phase::Receiving => ActionModel::Read(wanted(state)),
        Phase::Writing => ActionModel::Write,
        Phase::Syncing => ActionModel::Sync,
        Phase::Saving => if state.order.extract {
            ActionModel::Extract(filename::extraction_stem(state.order.filename))
        } else {
            ActionModel::Commit(state.order.filename)
        },
        Phase::Finished => ActionModel::Rest,
    }
}

/// An upload goes on in another phase.
pub open spec fn enter(state: UploadState, phase: Phase) -> (UploadState, ActionModel) {
    let next = UploadState { phase, ..state };
    (next, pending(next))
}

/// The body is complete, or more of it is to be read.
pub open spec fn after_piece(state: UploadState) -> Phase {
    if state.received.len() < state.order.length {
        Phase::Receiving
    } else {
        Phase::Syncing
    }
}

/// An upload ends without a file: a temporary file is removed.
pub open spec fn give_up(state: UploadState, status: Status, message: Seq<char>) -> (
    UploadState,
    ActionModel,
) {
    (
        UploadState { phase: Phase::Finished, temporary: false, ..state },
        ActionModel::Finish {
            remove_temporary: state.temporary,
            reply: protocol::error_reply_model(status, message),
        },
    )
}

/// The reply that tells where a file was saved.
pub open spec fn saved_reply_model(order: receiver::UploadOrder, path: Seq<char>) ->
    protocol::ReplyModel {
    let members = seq![
        ("path"@, json::ReplyFieldModel::Text(path)),
        ("bytes"@, json::ReplyFieldModel::Count(order.length)),
        ("sha256"@, json::ReplyFieldModel::Text(order.checksum)),
    ];
    protocol::ReplyModel {
        status: Status::Created,
        members: if order.extract {
            members.push(("extracted"@, json::ReplyFieldModel::Flag(true)))
        } else {
            members
        },
    }
}

/// An upload ends with a file. An archive is removed once it is extracted; a file that got its
/// name has no temporary name any more.
pub open spec fn succeed(state: UploadState, path: Seq<char>) -> (UploadState, ActionModel) {
    (
        UploadState { phase: Phase::Finished, temporary: false, ..state },
        ActionModel::Finish {
            remove_temporary: state.order.extract,
            reply: saved_reply_model(state.order, path),
        },
    )
}

/// The words before the reason why a phase failed.
pub open spec fn failure_words(order: receiver::UploadOrder, phase: Phase) -> Seq<char> {
    match phase {
        Phase::Preparing => "cannot create destination: "@,
        Phase::Creating => "cannot create temporary file: "@,
        Phase::Receiving => "request body ended before Content-Length: "@,
        Phase::Saving => if order.extract {
            "cannot extract archive: "@
        } else {
            "cannot save file: "@
        },
        _ => ""@,
    }
}

/// The status when a phase failed: what is wrong with the body is the sender's, what is wrong with
/// the directories is the receiver's.
pub open spec fn failure_status(phase: Phase) -> Status {
    match phase {
        Phase::Preparing | Phase::Creating | Phase::Saving => Status::InternalError,
        _ => Status::BadRequest,
    }
}

/// How an upload goes on. An event that does not answer what the upload waits for changes nothing.
pub open spec fn upload_step(state: UploadState, event: EventModel) -> (UploadState, ActionModel) {
    match (state.phase, event) {
        (Phase::Finished, _) => (state, pending(state)),
        (phase, EventModel::Failed(detail)) => give_up(
            state,
            failure_status(phase),
            failure_words(state.order, phase) + detail,
        ),
        (Phase::Preparing, EventModel::Done) => enter(state, Phase::Creating),
        (Phase::Creating, EventModel::Done) => enter(
            UploadState { temporary: true, ..state },
            after_piece(state),
        ),
        (Phase::Receiving, EventModel::Chunk(bytes)) => if bytes.len() == 0 {
            give_up(state, Status::BadRequest, "request body ended before Content-Length"@)
        } else if bytes.len() <= wanted(state) {
            enter(UploadState { received: state.received + bytes, ..state }, Phase::Writing)
        } else {
            (state, pending(state))
        },
        (Phase::Writing, EventModel::Done) => enter(state, after_piece(state)),
        (Phase::Syncing, EventModel::Done) => if digest::checksum(state.received)
            == state.order.checksum {
            enter(state, Phase::Saving)
        } else {
            give_up(state, Status::Unprocessable, "SHA-256 mismatch"@)
        },
        (Phase::Saving, EventModel::Saved(path)) => succeed(state, path),
        _ => (state, pending(state)),
    }
}

/// An upload that is being taken in.
pub struct Upload {
    request: UploadRequest,
    phase: Phase,
    remaining: u64,
    digest: Checksum,
    received: Ghost<Seq<u8>>,
    temporary: bool,
}

impl View for Upload {
    type V = UploadState;

    closed spec fn view(&self) -> UploadState {
        UploadState {
            order: self.request@,
            phase: self.phase,
            received: self.received@,
            temporary: self.temporary,
        }
    }
}

impl Upload {
    pub closed spec fn well_formed(&self) -> bool {
        &&& self.remaining + self.received@.len() == self.request.length
        &&& self.phase != Phase::Saving && self.phase != Phase::Finished
            ==> self.digest.well_formed() && self.digest.content() == self.received@
    }

    /// An upload that was asked for begins.
    pub fn new(request: UploadRequest) -> (r: Self)
        ensures
            r.well_formed(),
            r@ == upload_start(request@),
    {
        Upload {
            remaining: request.length,
            request,
            phase: Phase::Preparing,
            digest: Checksum::new(),
            received: Ghost(Seq::empty()),
            temporary: false,
        }
    }

    /// What the upload waits for.
    pub fn pending(&self) -> (r: Action)
        requires
            self.well_formed(),
        ensures
            r@ == pending(self@),
    {
        match self.phase {
            Phase::Preparing => Action::PrepareDestination,
            Phase::Creating => Action::CreateTemporary,
            Phase::Receiving => if self.remaining < COPY_BUFFER_BYTES as u64 {
                Action::Read(self.remaining as usize)
            } else {
                Action::Read(COPY_BUFFER_BYTES)
            },
            Phase::Writing => Action::Write,
            Phase::Syncing => Action::Sync,
            Phase::Saving => if self.request.extract {
                Action::Extract(extraction_stem_of(self.request.filename.as_str()))
            } else {
                Action::Commit(self.request.filename.as_str().to_owned())
            },
            Phase::Finished => Action::Rest,
        }
    }

    /// How many bytes were received.
    pub fn received(&self) -> (r: u64)
        requires
            self.well_formed(),
        ensures
            r == self@.received.len(),
    {
        self.request.length - self.remaining
    }

    fn enter(&mut self, phase: Phase) -> (r: Action)
        requires
            old(self).well_formed(),
            old(self)@.phase != Phase::Saving,
            old(self)@.phase != Phase::Finished,
        ensures
            final(self).well_formed(),
            (final(self)@, r@) == enter(old(self)@, phase),
    {
        self.phase = phase;
        self.pending()
    }

    fn after_piece(&self) -> (r: Phase)
        requires
            self.well_formed(),
        ensures
            r == after_piece(self@),
    {
        if self.remaining > 0 {
            Phase::Receiving
        } else {
            Phase::Syncing
        }
    }

    fn give_up(&mut self, status: Status, message: &str) -> (r: Action)
        requires
            old(self).well_formed(),
        ensures
            final(self).well_formed(),
            (final(self)@, r@) == give_up(old(self)@, status, message@),
    {
        let remove_temporary = self.temporary;
        self.phase = Phase::Finished;
        self.temporary = false;
        Action::Finish { remove_temporary, reply: error_reply(status, message) }
    }

    fn fail(&mut self, detail: &str) -> (r: Action)
        requires
            old(self).well_formed(),
        ensures
            final(self).well_formed(),
            (final(self)@, r@) == give_up(
                old(self)@,
                failure_status(old(self)@.phase),
                failure_words(old(self)@.order, old(self)@.phase) + detail@,
            ),
    {
        let (status, words) = match self.phase {
            Phase::Preparing => (Status::InternalError, "cannot create destination: "),
            Phase::Creating => (Status::InternalError, "cannot create temporary file: "),
            Phase::Receiving => (Status::BadRequest, "request body ended before Content-Length: "),
            Phase::Saving => if self.request.extract {
                (Status::InternalError, "cannot extract archive: ")
            } else {
                (Status::InternalError, "cannot save file: ")
            },
            _ => (Status::BadRequest, ""),
        };
        let mut message = words.to_owned();
        message.append(detail);
        self.give_up(status, message.as_str())
    }

    fn succeed(&mut self, path: &str) -> (r: Action)
        requires
            old(self).well_formed(),
        ensures
            final(self).well_formed(),
            (final(self)@, r@) == succeed(old(self)@, path@),
    {
        let mut members: Vec<ReplyMember> = Vec::new();
        members.push(text_member("path", path));
        members.push(count_member("bytes", self.request.length));
        members.push(text_member("sha256", self.request.checksum.as_str()));
        if self.request.extract {
            members.push(flag_member("extracted", true));
        }
        let reply = Reply { status: Status::Created, members };
        assert(reply@ =~= saved_reply_model(self@.order, path@));
        self.phase = Phase::Finished;
        self.temporary = false;
        Action::Finish { remove_temporary: self.request.extract, reply }
    }

    /// The checksum of what was received is the one that was announced.
    fn verify(&mut self) -> (r: bool)
        requires
            old(self).well_formed(),
            old(self)@.phase == Phase::Syncing,
        ensures
            final(self).well_formed(),
            final(self)@ == (UploadState { phase: Phase::Finished, ..old(self)@ }),
            r == (digest::checksum(old(self)@.received) == old(self)@.order.checksum),
    {
        let mut finished = Checksum::new();
        std::mem::swap(&mut finished, &mut self.digest);
        self.phase = Phase::Finished;
        let actual = finished.finish();
        proof {
            encode_utf8_decode_utf8(actual@);
            encode_utf8_decode_utf8(self.request.checksum@);
        }
        constant_time_eq(actual.as_str().as_bytes(), self.request.checksum.as_str().as_bytes())
    }

    /// Goes on from what came of what was to be done.
    pub fn step(&mut self, event: Event) -> (r: Action)
        requires
            old(self).well_formed(),
            event@ matches EventModel::Chunk(bytes) ==> old(self)@.received.len() + bytes.len()
                <= digest::MAX_DIGEST_BYTES,
        ensures
            final(self).well_formed(),
            (final(self)@, r@) == upload_step(old(self)@, event@),
    {
        if self.phase == Phase::Finished {
            return Action::Rest;
        }
        match event {
            Event::Failed(detail) => self.fail(detail.as_str()),
            Event::Done => match self.phase {
                Phase::Preparing => self.enter(Phase::Creating),
                Phase::Creating => {
                    let phase = self.after_piece();
                    self.temporary = true;
                    self.enter(phase)
                },
                Phase::Writing => {
                    let phase = self.after_piece();
                    self.enter(phase)
                },
                Phase::Syncing => if self.verify() {
                    self.phase = Phase::Saving;
                    self.pending()
                } else {
                    self.give_up(Status::Unprocessable, "SHA-256 mismatch")
                },
                _ => self.pending(),
            },
            Event::Chunk(bytes) => if self.phase == Phase::Receiving {
                if bytes.len() == 0 {
                    self.give_up(Status::BadRequest, "request body ended before Content-Length")
                } else if bytes.len() as u64 <= self.remaining && bytes.len() <= COPY_BUFFER_BYTES {
                    self.digest.update(&bytes);
                    self.remaining = self.remaining - bytes.len() as u64;
                    self.received = Ghost(self.received@ + bytes@);
                    self.enter(Phase::Writing)
                } else {
                    self.pending()
                }
            } else {
                self.pending()
            },
            Event::Saved(path) => if self.phase == Phase::Saving {
                self.succeed(path.as_str())
            } else {
                self.pending()
            },
        }
    }
}

// ---------------------------------------------------------------------------------------------
// Laws

/// Where an upload stands after some events.
pub open spec fn upload_run(state: UploadState, events: Seq<EventModel>) -> UploadState
    decreases events.len(),
{
    if events.len() == 0 {
        state
    } else {
        upload_step(upload_run(state, events.drop_last()), events.last()).0
    }
}

/// What holds of an upload at all times: no more than the announced length is received, and the
/// file is put in its place only when it is complete and has the announced checksum.
pub open spec fn is_sound(state: UploadState) -> bool {
    &&& state.received.len() <= state.order.length
    &&& state.phase == Phase::Preparing || state.phase == Phase::Creating
        ==> state.received.len() == 0 && !state.temporary
    &&& state.phase == Phase::Receiving ==> state.received.len() < state.order.length
    &&& state.phase == Phase::Syncing || state.phase == Phase::Saving ==> state.received.len()
        == state.order.length
    &&& state.phase == Phase::Saving ==> digest::checksum(state.received) == state.order.checksum
    &&& state.phase == Phase::Receiving || state.phase == Phase::Writing || state.phase
        == Phase::Syncing || state.phase == Phase::Saving ==> state.temporary
    &&& state.phase == Phase::Finished ==> !state.temporary
}

/// Whatever happens, an upload keeps what it was asked for, and stays sound.
pub proof fn law_uploads_stay_sound(order: receiver::UploadOrder, events: Seq<EventModel>)
    ensures
        is_sound(upload_run(upload_start(order), events)),
        upload_run(upload_start(order), events).order == order,
    decreases events.len(),
{
    if events.len() > 0 {
        law_uploads_stay_sound(order, events.drop_last());
    }
}

/// Nothing unverified is saved: the temporary file is extracted or gets its name, and success is
/// told, only when exactly the announced number of bytes was received and their checksum is the
/// announced one.
pub proof fn law_only_verified_files_are_saved(
    order: receiver::UploadOrder,
    events: Seq<EventModel>,
    event: EventModel,
)
    ensures
        ({
            let state = upload_run(upload_start(order), events);
            let (next, action) = upload_step(state, event);
            (action is Extract || action is Commit || (action matches ActionModel::Finish {
                reply,
                ..
            } && reply.status == Status::Created)) ==> next.received.len() == order.length
                && digest::checksum(next.received) == order.checksum
        }),
{
    law_uploads_stay_sound(order, events);
    law_uploads_stay_sound(order, events.push(event));
    assert(events.push(event).drop_last() =~= events);
}

/// An upload that ends leaves no temporary file: it is removed, unless it was never created or has
/// got its final name.
pub proof fn law_no_temporary_file_is_left(
    order: receiver::UploadOrder,
    events: Seq<EventModel>,
    event: EventModel,
)
    ensures
        ({
            let state = upload_run(upload_start(order), events);
            upload_step(state, event).1 matches ActionModel::Finish { remove_temporary, reply } ==> (
            remove_temporary == (state.temporary && !(reply.status == Status::Created
                && !order.extract)))
        }),
{
    law_uploads_stay_sound(order, events);
}

/// No more of the body is read than was announced.
pub proof fn law_body_is_not_overread(order: receiver::UploadOrder, events: Seq<EventModel>)
    ensures
        ({
            let state = upload_run(upload_start(order), events);
            pending(state) matches ActionModel::Read(n) ==> 0 < n <= COPY_BUFFER_BYTES
                && state.received.len() + n <= order.length
        }),
{
    law_uploads_stay_sound(order, events);
}

/// Pieces of a body, one behind the other.
pub open spec fn pieces_joined(pieces: Seq<Seq<u8>>) -> Seq<u8>
    decreases pieces.len(),
{
    if pieces.len() == 0 {
        seq![]
    } else {
        pieces_joined(pieces.drop_last()) + pieces.last()
    }
}

/// The events of an upload up to the last piece, when all goes well.
pub open spec fn smooth_events(pieces: Seq<Seq<u8>>) -> Seq<EventModel>
    decreases pieces.len(),
{
    if pieces.len() == 0 {
        seq![EventModel::Done, EventModel::Done]
    } else {
        smooth_events(pieces.drop_last()).push(EventModel::Chunk(pieces.last())).push(
            EventModel::Done,
        )
    }
}

/// Where an upload stands when all its pieces came in well.
pub proof fn lemma_smooth_events(order: receiver::UploadOrder, pieces: Seq<Seq<u8>>)
    requires
        forall|i: int| 0 <= i < pieces.len() ==> 0 < (#[trigger] pieces[i]).len()
            <= COPY_BUFFER_BYTES,
        pieces_joined(pieces).len() <= order.length,
    ensures
        ({
            let state = upload_run(upload_start(order), smooth_events(pieces));
            &&& state.order == order
            &&& state.received == pieces_joined(pieces)
            &&& state.temporary
            &&& state.phase == after_piece(state)
        }),
    decreases pieces.len(),
{
    let start = upload_start(order);
    if pieces.len() == 0 {
        let events = smooth_events(pieces);
        assert(events.drop_last() =~= seq![EventModel::Done]);
        assert(seq![EventModel::Done].drop_last() =~= seq![]);
        reveal_with_fuel(upload_run, 3);
        assert(upload_run(start, seq![]) == start);
        assert(upload_run(start, seq![EventModel::Done]).phase == Phase::Creating);
    } else {
        let front = pieces.drop_last();
        assert forall|i: int| 0 <= i < front.len() implies 0 < (#[trigger] front[i]).len()
            <= COPY_BUFFER_BYTES by {
            assert(front[i] == pieces[i]);
        }
        let piece = pieces.last();
        assert(0 < pieces[pieces.len() - 1].len());
        lemma_smooth_events(order, front);
        let before = smooth_events(front);
        let chunk = before.push(EventModel::Chunk(piece));
        let events = chunk.push(EventModel::Done);
        assert(events.drop_last() =~= chunk);
        assert(chunk.drop_last() =~= before);
        let state = upload_run(start, before);
        assert(state.phase == Phase::Receiving);
        let taken = upload_run(start, chunk);
        assert(taken == upload_step(state, EventModel::Chunk(piece)).0);
        assert(taken.phase == Phase::Writing);
        assert(upload_run(start, events) == upload_step(taken, EventModel::Done).0);
    }
}

/// A body that comes in whole, in any pieces, and has the announced checksum is saved, and the
/// reply tells where.
pub proof fn law_complete_upload_is_saved(
    order: receiver::UploadOrder,
    pieces: Seq<Seq<u8>>,
    path: Seq<char>,
)
    requires
        forall|i: int| 0 <= i < pieces.len() ==> 0 < (#[trigger] pieces[i]).len()
            <= COPY_BUFFER_BYTES,
        pieces_joined(pieces).len() == order.length,
        digest::checksum(pieces_joined(pieces)) == order.checksum,
    ensures
        ({
            let synced = upload_run(
                upload_start(order),
                smooth_events(pieces).push(EventModel::Done),
            );
            upload_step(synced, EventModel::Saved(path)).1 == (ActionModel::Finish {
                remove_temporary: order.extract,
                reply: saved_reply_model(order, path),
            })
        }),
{
    lemma_smooth_events(order, pieces);
    let events = smooth_events(pieces).push(EventModel::Done);
    assert(events.drop_last() =~= smooth_events(pieces));
}

/// A body that comes in whole but has another checksum is refused, and its temporary file removed.
pub proof fn law_corrupted_upload_is_refused(
    order: receiver::UploadOrder,
    pieces: Seq<Seq<u8>>,
)
    requires
        forall|i: int| 0 <= i < pieces.len() ==> 0 < (#[trigger] pieces[i]).len()
            <= COPY_BUFFER_BYTES,
        pieces_joined(pieces).len() == order.length,
        digest::checksum(pieces_joined(pieces)) != order.checksum,
    ensures
        upload_step(
            upload_run(upload_start(order), smooth_events(pieces)),
            EventModel::Done,
        ).1 == (ActionModel::Finish {
            remove_temporary: true,
            reply: protocol::error_reply_model(Status::Unprocessable, "SHA-256 mismatch"@),
        }),
{
    lemma_smooth_events(order, pieces);
}

/// A body that was verified is saved under the name that was announced; an archive is extracted
/// under its name without the ending.
pub proof fn law_files_are_saved_under_the_announced_name(state: UploadState, stem: Seq<char>)
    requires
        state.phase == Phase::Syncing,
        digest::checksum(state.received) == state.order.checksum,
    ensures
        !state.order.extract ==> upload_step(state, EventModel::Done).1 == ActionModel::Commit(
            state.order.filename,
        ),
        state.order.extract && state.order.filename == stem + ".tar.gz"@ ==> upload_step(
            state,
            EventModel::Done,
        ).1 == ActionModel::Extract(stem),
        state.order.extract && state.order.filename == stem + ".tgz"@ ==> upload_step(
            state,
            EventModel::Done,
        ).1 == ActionModel::Extract(stem),
{
    filename::law_archive_endings_are_taken_off(stem, stem);
}

/// An upload goes from step to step: the destination is prepared, a temporary file created, the body
/// read and written piece by piece, and the file flushed once all of it is there. A body of no bytes
/// is not read.
pub proof fn law_uploads_go_step_by_step(order: receiver::UploadOrder, state: UploadState, piece: Seq<u8>)
    ensures
        pending(upload_start(order)) == ActionModel::PrepareDestination,
        state.phase == Phase::Preparing ==> upload_step(state, EventModel::Done).1
            == ActionModel::CreateTemporary,
        state.phase == Phase::Creating && state.received.len() < state.order.length ==> (
        upload_step(state, EventModel::Done).1 matches ActionModel::Read(n) && n > 0),
        state.phase == Phase::Creating && state.received.len() == state.order.length
            ==> upload_step(state, EventModel::Done).1 == ActionModel::Sync,
        state.phase == Phase::Receiving && 0 < piece.len() <= wanted(state) ==> upload_step(
            state,
            EventModel::Chunk(piece),
        ).1 == ActionModel::Write && upload_step(state, EventModel::Chunk(piece)).0.received
            == state.received + piece,
        state.phase == Phase::Writing && state.received.len() < state.order.length ==> (
        upload_step(state, EventModel::Done).1 matches ActionModel::Read(n) && n > 0),
        state.phase == Phase::Writing && state.received.len() == state.order.length ==> upload_step(
            state,
            EventModel::Done,
        ).1 == ActionModel::Sync,
        state.received.len() <= state.order.length ==> wanted(state) <= state.order.length
            - state.received.len() && (wanted(state) == state.order.length - state.received.len()
            || wanted(state) == 1_048_576),
{
}

/// What goes wrong with an upload is told: what is wrong with the body as the sender's fault, what is
/// wrong with the directories as the receiver's; and a temporary file is removed.
pub proof fn law_failed_uploads_are_told(state: UploadState, detail: Seq<char>)
    ensures
        ({
            let told = |event: EventModel, status: Status, message: Seq<char>|
                upload_step(state, event).1 == (ActionModel::Finish {
                    remove_temporary: state.temporary,
                    reply: protocol::error_reply_model(status, message),
                });
            let failed = EventModel::Failed(detail);
            &&& state.phase == Phase::Preparing ==> told(
                failed,
                Status::InternalError,
                "cannot create destination: "@ + detail,
            )
            &&& state.phase == Phase::Creating ==> told(
                failed,
                Status::InternalError,
                "cannot create temporary file: "@ + detail,
            )
            &&& state.phase == Phase::Receiving ==> told(
                failed,
                Status::BadRequest,
                "request body ended before Content-Length: "@ + detail,
            ) && told(
                EventModel::Chunk(seq![]),
                Status::BadRequest,
                "request body ended before Content-Length"@,
            )
            &&& state.phase == Phase::Writing || state.phase == Phase::Syncing ==> told(
                failed,
                Status::BadRequest,
                detail,
            )
            &&& state.phase == Phase::Saving && state.order.extract ==> told(
                failed,
                Status::InternalError,
                "cannot extract archive: "@ + detail,
            )
            &&& state.phase == Phase::Saving && !state.order.extract ==> told(
                failed,
                Status::InternalError,
                "cannot save file: "@ + detail,
            )
        }),
{
    reveal_strlit("");
    assert(""@ + detail =~= detail);
}

/// A saved file is told with its path, its length and its checksum, under status 201.
pub proof fn law_saved_files_are_told_with_their_path(
    state: UploadState,
    path: Seq<char>,
)
    requires
        state.phase == Phase::Saving,
    ensures
        upload_step(state, EventModel::Saved(path)).1 matches ActionModel::Finish { reply, .. }
            && reply.status == Status::Created && ({
            let object = json::read_back(reply.members);
            &&& json::member_text(object, "path"@) == Some(path)
            &&& json::member_count(object, "bytes"@) == Some(state.order.length)
            &&& json::member_text(object, "sha256"@) == Some(state.order.checksum)
        }),
{
    crate::sender::law_saved_reply_is_understood(state.order, path);
    let members = saved_reply_model(state.order, path).members;
    reveal_strlit("path");
    reveal_strlit("bytes");
    reveal_strlit("sha256");
    reveal_strlit("extracted");
    assert("path"@.len() == 4 && "bytes"@.len() == 5 && "sha256"@.len() == 6 && "extracted"@.len()
        == 9);
    json::lemma_read_back(members, 0);
}

} // verus!
