//! The shared authentication token: 64 hexadecimal digits, kept in lower case.
use crate::encoding;
use crate::encoding::{bytes_to_hex, constant_time_eq};
use crate::error;
use crate::error::{ErrorKind, TransferError};
use crate::text;
use crate::text::{chars_of, hex_digit, lowered, text_of, trimmed};
use vstd::array::array_as_slice;
use vstd::prelude::*;
use vstd::utf8::*;

verus! {

/// The number of digits of a token.
pub const TOKEN_DIGITS: usize = 64;

/// Whether a text spells a token.
pub open spec fn is_token(s: Seq<char>) -> bool {
    s.len() == TOKEN_DIGITS && text::all_in(s, |c: char| text::is_hex_digit(c))
}

/// The token that a text holds: white space around it is ignored, and its letters are taken in
/// lower case.
pub open spec fn token_of(value: Seq<char>) -> Result<Seq<char>, error::Fault> {
    if is_token(text::trim(value)) {
        Ok(text::lower(text::trim(value)))
    } else {
        Err(error::fault(ErrorKind::InvalidToken))
    }
}

/// Checks a token and puts it into its kept form.
pub fn validate_token(value: &str) -> (r: Result<String, TransferError>)
    ensures
        error::text_result(r) == token_of(value@),
{
    let chars = chars_of(value);
    let token = trimmed(&chars);
    if token.len() != TOKEN_DIGITS {
        return Err(TransferError::new(ErrorKind::InvalidToken));
    }
    let mut i: usize = 0;
    while i < token.len()
        invariant
            i <= token@.len(),
            token@ == text::trim(value@),
            forall|j: int| 0 <= j < i ==> text::is_hex_digit(#[trigger] token@[j]),
        decreases token@.len() - i,
    {
        if !hex_digit(token[i]) {
            assert(!text::is_hex_digit(token@[i as int]));
            return Err(TransferError::new(ErrorKind::InvalidToken));
        }
        i += 1;
    }
    let lower = lowered(token);
    Ok(text_of(&lower))
}

/// The token made of random bytes. Thirty-two bytes give a valid token in its kept form.
pub fn token_from_random(random: &[u8]) -> (r: String)
    ensures
        r@ == encoding::hex_text(random@),
        random@.len() == 32 ==> token_of(r@) == Ok::<Seq<char>, error::Fault>(r@),
{
    let token = bytes_to_hex(random);
    proof {
        if random@.len() == 32 {
            lemma_hex_is_token(random@);
            assert(token@ + Seq::<char>::empty() =~= token@);
        }
    }
    token
}

/// The content of a token file.
pub open spec fn token_file_content(token: Seq<char>) -> Seq<char> {
    token.push('\n')
}

pub fn token_file_text(token: &str) -> (r: String)
    ensures
        r@ == token_file_content(token@),
{
    let mut content = token.to_owned();
    content.push('\n');
    content
}

/// What a request must say to be authorized.
pub open spec fn bearer(token: Seq<char>) -> Seq<char> {
    "Bearer "@ + token
}

/// Whether an authorization header, or its absence, proves knowledge of the token.
pub open spec fn is_authorized(token: Seq<char>, provided: Option<Seq<char>>) -> bool {
    match provided {
        Some(value) => value == bearer(token),
        None => false,
    }
}

pub fn authorization(token: &str) -> (r: String)
    ensures
        r@ == bearer(token@),
{
    let mut text = "Bearer ".to_owned();
    text.append(token);
    text
}

/// Compares what a request provides with what is expected.
pub fn authorized(token: &str, provided: Option<&str>) -> (r: bool)
    ensures
        r == is_authorized(
            token@,
            match provided {
                Some(value) => Some(value@),
                None => None,
            },
        ),
{
    broadcast use encode_utf8_decode_utf8;

    let expected = authorization(token);
    let value: &str = match provided {
        Some(value) => value,
        None => "",
    };
    proof {
        reveal_strlit("Bearer ");
        reveal_strlit("");
        assert(bearer(token@).len() > 0);
        assert(decode_utf8(encode_utf8(expected@)) == expected@);
        assert(decode_utf8(encode_utf8(value@)) == value@);
    }
    constant_time_eq(expected.as_str().as_bytes(), value.as_bytes())
}

// ---------------------------------------------------------------------------------------------
// The token file

/// Where the making of a token file stands.
#[derive(Clone, Copy, Debug, PartialEq, Eq, Structural)]
pub enum TokenPhase {
    /// Is there a file already?
    Looking,
    /// The directory is made, for its owner alone.
    Preparing,
    /// Random bytes are drawn.
    Drawing,
    /// The file is made, unless there is one.
    Creating,
    /// The token is written.
    Writing,
    /// The token of the file is read.
    Reading,
    /// There is a token, or an error.
    Finished,
}

/// What came of what was to be done.
pub enum TokenEvent {
    /// Whether there is a file.
    Found(bool),
    Done,
    /// Another file was made in between.
    Taken,
    Drawn([u8; 32]),
    /// What the file holds.
    Text(String),
    /// It failed, in these words.
    Failed(String),
}

/// The model of an event.
pub enum TokenEventModel {
    Found(bool),
    Done,
    Taken,
    Drawn(Seq<u8>),
    Text(Seq<char>),
    Failed(Seq<char>),
}

impl View for TokenEvent {
    type V = TokenEventModel;

    open spec fn view(&self) -> TokenEventModel {
        match self {
            TokenEvent::Found(found) => TokenEventModel::Found(*found),
            TokenEvent::Done => TokenEventModel::Done,
            TokenEvent::Taken => TokenEventModel::Taken,
            TokenEvent::Drawn(random) => TokenEventModel::Drawn(random@),
            TokenEvent::Text(text) => TokenEventModel::Text(text@),
            TokenEvent::Failed(words) => TokenEventModel::Failed(words@),
        }
    }
}

/// What is to be done next.
pub enum TokenAction {
    /// Look whether there is a file.
    Look,
    /// Make the directory, for its owner alone.
    Prepare,
    /// Draw random bytes.
    Draw,
    /// Make the file, for its owner alone, unless there is one.
    Create,
    /// Write this into the file.
    Write(String),
    /// Read the file.
    Read,
    /// It is over; a file that could not be written is removed.
    Finish { remove_file: bool, result: Result<String, TransferError> },
    /// Nothing is left to be done.
    Rest,
}

/// The model of an action.
pub enum TokenActionModel {
    Look,
    Prepare,
    Draw,
    Create,
    Write(Seq<char>),
    Read,
    Finish { remove_file: bool, result: Result<Seq<char>, error::Fault> },
    Rest,
}

impl View for TokenAction {
    type V = TokenActionModel;

    open spec fn view(&self) -> TokenActionModel {
        match self {
            TokenAction::Look => TokenActionModel::Look,
            TokenAction::Prepare => TokenActionModel::Prepare,
            TokenAction::Draw => TokenActionModel::Draw,
            TokenAction::Create => TokenActionModel::Create,
            TokenAction::Write(text) => TokenActionModel::Write(text@),
            TokenAction::Read => TokenActionModel::Read,
            TokenAction::Finish { remove_file, result } => TokenActionModel::Finish {
                remove_file: *remove_file,
                result: error::text_result(*result),
            },
            TokenAction::Rest => TokenActionModel::Rest,
        }
    }
}

/// The model of the making of a token file.
#[verifier::ext_equal]
pub struct TokenState {
    pub phase: TokenPhase,
    /// The token that was drawn.
    pub token: Seq<char>,
}

/// The making of a token file that begins.
pub open spec fn token_start() -> TokenState {
    TokenState { phase: TokenPhase::Looking, token: seq![] }
}

/// What the making of a token file waits for.
pub open spec fn token_pending(state: TokenState) -> TokenActionModel {
    match state.phase {
        TokenPhase::Looking => TokenActionModel::Look,
        TokenPhase::Preparing => TokenActionModel::Prepare,
        TokenPhase::Drawing => TokenActionModel::Draw,
        TokenPhase::Creating => TokenActionModel::Create,
        TokenPhase::Writing => TokenActionModel::Write(token_file_content(state.token)),
        TokenPhase::Reading => TokenActionModel::Read,
        TokenPhase::Finished => TokenActionModel::Rest,
    }
}

/// The making of a token file goes on in another phase.
pub open spec fn token_enter(state: TokenState, phase: TokenPhase) -> (
    TokenState,
    TokenActionModel,
) {
    let next = TokenState { phase, ..state };
    (next, token_pending(next))
}

/// The making of a token file ends.
pub open spec fn token_finish(
    state: TokenState,
    remove_file: bool,
    result: Result<Seq<char>, error::Fault>,
) -> (TokenState, TokenActionModel) {
    (
        TokenState { phase: TokenPhase::Finished, ..state },
        TokenActionModel::Finish { remove_file, result },
    )
}

/// How the making of a token file goes on. An event that does not answer what it waits for changes
/// nothing.
pub open spec fn token_step(state: TokenState, event: TokenEventModel) -> (
    TokenState,
    TokenActionModel,
) {
    match (state.phase, event) {
        (TokenPhase::Finished, _) => (state, token_pending(state)),
        (phase, TokenEventModel::Failed(words)) => token_finish(
            state,
            phase == TokenPhase::Writing,
            Err(error::fault_about(ErrorKind::Outside, words)),
        ),
        (TokenPhase::Looking, TokenEventModel::Found(found)) => token_enter(
            state,
            if found {
                TokenPhase::Reading
            } else {
                TokenPhase::Preparing
            },
        ),
        (TokenPhase::Preparing, TokenEventModel::Done) => token_enter(state, TokenPhase::Drawing),
        (TokenPhase::Drawing, TokenEventModel::Drawn(random)) => token_enter(
            TokenState { token: encoding::hex_text(random), ..state },
            TokenPhase::Creating,
        ),
        (TokenPhase::Creating, TokenEventModel::Done) => token_enter(state, TokenPhase::Writing),
        (TokenPhase::Creating, TokenEventModel::Taken) => token_enter(state, TokenPhase::Reading),
        (TokenPhase::Writing, TokenEventModel::Done) => token_finish(
            state,
            false,
            Ok(state.token),
        ),
        (TokenPhase::Reading, TokenEventModel::Text(text)) => token_finish(
            state,
            false,
            token_of(text),
        ),
        _ => (state, token_pending(state)),
    }
}

/// A token file that is being made, unless there is one.
pub struct TokenSetup {
    phase: TokenPhase,
    token: String,
}

impl View for TokenSetup {
    type V = TokenState;

    closed spec fn view(&self) -> TokenState {
        TokenState { phase: self.phase, token: self.token@ }
    }
}

impl TokenSetup {
    pub fn new() -> (r: Self)
        ensures
            r@ == token_start(),
    {
        let r = TokenSetup { phase: TokenPhase::Looking, token: String::new() };
        assert(r@ =~= token_start());
        r
    }

    /// What is waited for.
    pub fn pending(&self) -> (r: TokenAction)
        ensures
            r@ == token_pending(self@),
    {
        match self.phase {
            TokenPhase::Looking => TokenAction::Look,
            TokenPhase::Preparing => TokenAction::Prepare,
            TokenPhase::Drawing => TokenAction::Draw,
            TokenPhase::Creating => TokenAction::Create,
            TokenPhase::Writing => TokenAction::Write(token_file_text(self.token.as_str())),
            TokenPhase::Reading => TokenAction::Read,
            TokenPhase::Finished => TokenAction::Rest,
        }
    }

    fn enter(&mut self, phase: TokenPhase) -> (r: TokenAction)
        ensures
            (final(self)@, r@) == token_enter(old(self)@, phase),
    {
        self.phase = phase;
        self.pending()
    }

    fn finish(&mut self, remove_file: bool, result: Result<String, TransferError>) -> (r: TokenAction)
        ensures
            (final(self)@, r@) == token_finish(
                old(self)@,
                remove_file,
                error::text_result(result),
            ),
    {
        self.phase = TokenPhase::Finished;
        TokenAction::Finish { remove_file, result }
    }

    /// Goes on from what came of what was to be done.
    pub fn step(&mut self, event: TokenEvent) -> (r: TokenAction)
        ensures
            (final(self)@, r@) == token_step(old(self)@, event@),
    {
        if self.phase == TokenPhase::Finished {
            return TokenAction::Rest;
        }
        match event {
            TokenEvent::Failed(words) => {
                let written = self.phase == TokenPhase::Writing;
                self.finish(written, Err(TransferError::about(ErrorKind::Outside, words)))
            },
            TokenEvent::Found(found) => if self.phase == TokenPhase::Looking {
                self.enter(
                    if found {
                        TokenPhase::Reading
                    } else {
                        TokenPhase::Preparing
                    },
                )
            } else {
                self.pending()
            },
            TokenEvent::Done => match self.phase {
                TokenPhase::Preparing => self.enter(TokenPhase::Drawing),
                TokenPhase::Creating => self.enter(TokenPhase::Writing),
                TokenPhase::Writing => {
                    let token = self.token.as_str().to_owned();
                    self.finish(false, Ok(token))
                },
                _ => self.pending(),
            },
            TokenEvent::Taken => if self.phase == TokenPhase::Creating {
                self.enter(TokenPhase::Reading)
            } else {
                self.pending()
            },
            TokenEvent::Drawn(random) => if self.phase == TokenPhase::Drawing {
                self.token = token_from_random(array_as_slice(&random));
                self.enter(TokenPhase::Creating)
            } else {
                self.pending()
            },
            TokenEvent::Text(text) => if self.phase == TokenPhase::Reading {
                let result = validate_token(text.as_str());
                self.finish(false, result)
            } else {
                self.pending()
            },
        }
    }
}

// ---------------------------------------------------------------------------------------------
// Laws

proof fn lemma_lower_hex(s: Seq<char>)
    requires
        text::all_in(s, |c: char| text::is_hex_digit(c)),
    ensures
        text::all_in(text::lower(s), |c: char| text::is_hex_digit(c)),
        text::lower(text::lower(s)) == text::lower(s),
{
    assert forall|i: int| 0 <= i < s.len() implies text::is_hex_digit(
        #[trigger] text::lower(s)[i],
    ) by {
        assert(text::is_hex_digit(s[i]));
    }
    assert(text::lower(text::lower(s)) =~= text::lower(s));
}

/// A token that was accepted is accepted again, as the same token.
pub proof fn law_accepted_token_is_kept(value: Seq<char>)
    requires
        token_of(value) is Ok,
    ensures
        token_of(token_of(value)->Ok_0) == token_of(value),
{
    let t = text::trim(value);
    let token = text::lower(t);
    lemma_lower_hex(t);
    assert(text::is_hex_digit(token[0]));
    assert(text::is_hex_digit(token[63]));
    text::lemma_trim_fixed(token);
}

/// The case of the letters does not matter: two texts that differ in it alone hold the same token.
pub proof fn law_token_ignores_case(a: Seq<char>, b: Seq<char>)
    requires
        is_token(a),
        is_token(b),
        text::lower(a) == text::lower(b),
    ensures
        token_of(a) == token_of(b),
        token_of(a) is Ok,
{
    assert(text::is_hex_digit(a[0]) && text::is_hex_digit(a[63]));
    assert(text::is_hex_digit(b[0]) && text::is_hex_digit(b[63]));
    text::lemma_trim_fixed(a);
    text::lemma_trim_fixed(b);
}

proof fn lemma_hex_is_token(random: Seq<u8>)
    requires
        random.len() == 32,
    ensures
        is_token(encoding::hex_text(random)),
        token_of(encoding::hex_text(random)) == Ok::<Seq<char>, error::Fault>(
            encoding::hex_text(random),
        ),
{
    let token = encoding::hex_text(random);
    encoding::lemma_hex_text_chars(random);
    assert(text::is_digit(token[0]) || 'a' <= token[0]);
    assert(text::is_digit(token[63]) || 'a' <= token[63]);
    text::lemma_trim_fixed(token);
    assert(text::lower(token) =~= token);
}

/// A generated token that was written to its file is read back from it.
pub proof fn law_token_file_is_read_back(random: Seq<u8>)
    requires
        random.len() == 32,
    ensures
        token_of(token_file_content(encoding::hex_text(random))) == Ok::<Seq<char>, error::Fault>(
            encoding::hex_text(random),
        ),
{
    let token = encoding::hex_text(random);
    lemma_hex_is_token(random);
    encoding::lemma_hex_text_chars(random);
    assert(text::is_digit(token[0]) || 'a' <= token[0]);
    assert(text::is_digit(token[63]) || 'a' <= token[63]);
    let content = token_file_content(token);
    assert(content.drop_last() =~= token);
    assert(text::trim_front(content) == content);
    assert(text::trim_back(content) == text::trim_back(token));
    assert(text::trim_back(token) == token);
}

/// Where the making of a token file stands after some events.
pub open spec fn token_run(state: TokenState, events: Seq<TokenEventModel>) -> TokenState
    decreases events.len(),
{
    if events.len() == 0 {
        state
    } else {
        token_step(token_run(state, events.drop_last()), events.last()).0
    }
}

/// A token that exists is used again, also where it came to exist in between: nothing is written,
/// and the result is what the file holds.
pub proof fn law_existing_token_is_reused(state: TokenState, text: Seq<char>)
    ensures
        state.phase == TokenPhase::Looking ==> token_step(state, TokenEventModel::Found(true)).1
            == TokenActionModel::Read,
        state.phase == TokenPhase::Creating ==> token_step(state, TokenEventModel::Taken).1
            == TokenActionModel::Read,
        state.phase == TokenPhase::Reading ==> token_step(state, TokenEventModel::Text(text)).1 == (
        TokenActionModel::Finish { remove_file: false, result: token_of(text) }),
{
}

/// A file is removed exactly where the token could not be written into it.
pub proof fn law_unwritten_token_file_is_removed(state: TokenState, event: TokenEventModel)
    ensures
        token_step(state, event).1 matches TokenActionModel::Finish { remove_file, result } ==> (
        remove_file <==> state.phase == TokenPhase::Writing && event is Failed) && (remove_file
            ==> result is Err),
{
}

proof fn lemma_drawn_token(events: Seq<TokenEventModel>)
    requires
        forall|i: int|
            0 <= i < events.len() ==> ((#[trigger] events[i]) matches TokenEventModel::Drawn(random)
                ==> random.len() == 32),
    ensures
        ({
            let state = token_run(token_start(), events);
            state.phase == TokenPhase::Creating || state.phase == TokenPhase::Writing ==> exists|
                random: Seq<u8>,
            |
                random.len() == 32 && state.token == #[trigger] encoding::hex_text(random)
        }),
    decreases events.len(),
{
    if events.len() > 0 {
        let front = events.drop_last();
        assert forall|i: int| 0 <= i < front.len() implies ((#[trigger] front[i]) matches TokenEventModel::Drawn(
            random,
        ) ==> random.len() == 32) by {
            assert(front[i] == events[i]);
        }
        lemma_drawn_token(front);
        let before = token_run(token_start(), front);
        let last = events[events.len() - 1];
        assert(last == events.last());
        if before.phase == TokenPhase::Drawing && last is Drawn {
            assert(token_step(before, last).0.token == encoding::hex_text(last->Drawn_0));
        }
    }
}

/// Whatever happens, what is given is a token in its kept form; what is written is read back as the
/// token that is then given.
pub proof fn law_token_setup_gives_a_token(
    events: Seq<TokenEventModel>,
    event: TokenEventModel,
    token: Seq<char>,
)
    requires
        forall|i: int|
            0 <= i < events.len() ==> ((#[trigger] events[i]) matches TokenEventModel::Drawn(random)
                ==> random.len() == 32),
        token_step(token_run(token_start(), events), event).1 matches TokenActionModel::Finish {
            result,
            ..
        } && result == Ok::<Seq<char>, error::Fault>(token),
    ensures
        token_of(token) == Ok::<Seq<char>, error::Fault>(token),
        ({
            let state = token_run(token_start(), events);
            token_pending(state) matches TokenActionModel::Write(text) ==> token_of(text) == Ok::<
                Seq<char>,
                error::Fault,
            >(token)
        }),
{
    let state = token_run(token_start(), events);
    lemma_drawn_token(events);
    if state.phase == TokenPhase::Writing {
        let random = choose|random: Seq<u8>|
            random.len() == 32 && state.token == #[trigger] encoding::hex_text(random);
        lemma_hex_is_token(random);
        law_token_file_is_read_back(random);
    } else {
        law_accepted_token_is_kept(event->Text_0);
    }
}

/// A token is sixty-four hexadecimal digits, with white space around them or not, and is kept in
/// lower case; anything else is refused.
pub proof fn law_tokens_are_sixty_four_digits(front: Seq<char>, value: Seq<char>, back: Seq<char>)
    requires
        text::all_in(front, |c: char| text::is_space(c)),
        text::all_in(back, |c: char| text::is_space(c)),
        value.len() > 0 ==> !text::is_space(value[0]) && !text::is_space(value.last()),
    ensures
        value.len() == 64 && (forall|i: int|
            0 <= i < 64 ==> text::is_hex_digit(#[trigger] value[i])) ==> token_of(
            front + value + back,
        ) == Ok::<Seq<char>, error::Fault>(text::lower(value)),
        value.len() != 64 || (exists|i: int|
            0 <= i < 64 && !text::is_hex_digit(#[trigger] value[i])) ==> token_of(
            front + value + back,
        ) == Err::<Seq<char>, error::Fault>(error::fault(ErrorKind::InvalidToken)),
{
    text::lemma_trim_padding(front, value, back);
}

/// A request proves knowledge of the token exactly where it says `Bearer`, a blank and the token.
pub proof fn law_only_the_token_authorizes(token: Seq<char>, value: Seq<char>)
    ensures
        is_authorized(token, Some(value)) <==> value == "Bearer "@ + token,
        !is_authorized(token, None),
        bearer(token) == "Bearer "@ + token,
        token_file_content(token) == token + "\n"@,
{
    reveal_strlit("\n");
    assert(token.push('\n') =~= token + "\n"@);
}

/// Where there is no token file one is made: the directory is prepared, the token drawn, the file
/// created and written, and only then is the token given; it is what was drawn.
pub proof fn law_missing_token_is_made(random: Seq<u8>)
    ensures
        ({
            let looked = token_step(token_start(), TokenEventModel::Found(false));
            let prepared = token_step(looked.0, TokenEventModel::Done);
            let drawn = token_step(prepared.0, TokenEventModel::Drawn(random));
            let created = token_step(drawn.0, TokenEventModel::Done);
            let written = token_step(created.0, TokenEventModel::Done);
            &&& token_pending(token_start()) == TokenActionModel::Look
            &&& looked.1 == TokenActionModel::Prepare
            &&& prepared.1 == TokenActionModel::Draw
            &&& drawn.1 == TokenActionModel::Create
            &&& created.1 == TokenActionModel::Write(encoding::hex_text(random) + "\n"@)
            &&& written.1 == (TokenActionModel::Finish {
                remove_file: false,
                result: Ok(encoding::hex_text(random)),
            })
        }),
{
    reveal_strlit("\n");
    let token = encoding::hex_text(random);
    assert(token.push('\n') =~= token + "\n"@);
}

/// A failure ends the making of a token file, and is told in its own words.
pub proof fn law_token_failures_are_told(state: TokenState, words: Seq<char>)
    requires
        state.phase != TokenPhase::Finished,
    ensures
        token_step(state, TokenEventModel::Failed(words)).1 matches TokenActionModel::Finish {
            result,
            ..
        } && result == Err::<Seq<char>, error::Fault>(
            error::fault_about(ErrorKind::Outside, words),
        ),
{
}

} // verus!
