//! Names of received files: which ones are accepted, and which one is taken when a name is not
//! free.
use crate::encoding::byte_length;
use crate::error;
use crate::error::{ErrorKind, TransferError};
use crate::paths;
use crate::paths::{file_name_of, joined, stem_and_extension};
use crate::text;
use crate::text::{
    append_chars, chars_of, control, decimal_text, ends_with, last_position_of, spells, text_of,
    trimmed,
};
use vstd::prelude::*;
use vstd::slice::slice_subrange;
use vstd::utf8::*;

verus! {

/// The longest accepted name, in bytes.
pub const MAX_NAME_BYTES: usize = 240;

/// How many names are tried for a received file or an extracted directory.
pub const MAX_CANDIDATES: u32 = 10_000;

/// How many names are tried for a temporary file.
pub const MAX_TEMPORARY_CANDIDATES: u32 = 100;

// ---------------------------------------------------------------------------------------------
// Clean names

/// A text with every backslash turned into a slash.
pub open spec fn slashed(s: Seq<char>) -> Seq<char> {
    Seq::new(
        s.len(),
        |i: int|
            if s[i] == '\\' {
                '/'
            } else {
                s[i]
            },
    )
}

/// What stands behind the last slash.
pub open spec fn last_part(s: Seq<char>) -> Seq<char> {
    match text::last_index(s, '/') {
        Some(i) => s.skip(i + 1),
        None => s,
    }
}

/// A name that a file may be saved under.
pub open spec fn is_clean(name: Seq<char>) -> bool {
    &&& name.len() > 0
    &&& name != "."@
    &&& name != ".."@
    &&& text::all_in(name, |c: char| !text::is_control(c))
    &&& encode_utf8(name).len() <= MAX_NAME_BYTES
}

/// The name that a given name is saved under: its last part, without white space around it.
pub open spec fn clean_name(value: Seq<char>) -> Result<Seq<char>, error::Fault> {
    let name = text::trim(last_part(slashed(value)));
    if is_clean(name) {
        Ok(name)
    } else {
        Err(error::fault(ErrorKind::UnsafeFilename))
    }
}

/// A name that cleaning leaves as it is.
pub open spec fn is_settled(name: Seq<char>) -> bool {
    clean_name(name) == Ok::<Seq<char>, error::Fault>(name)
}

/// Takes the last part of a given name, and refuses it unless it is safe.
pub fn clean_filename(value: &str) -> (r: Result<String, TransferError>)
    ensures
        error::text_result(r) == clean_name(value@),
{
    let mut normalized = chars_of(value);
    let mut i: usize = 0;
    while i < normalized.len()
        invariant
            i <= normalized@.len(),
            normalized@.len() == value@.len(),
            forall|j: int| 0 <= j < i ==> normalized@[j] == slashed(value@)[j],
            forall|j: int| i <= j < normalized@.len() ==> normalized@[j] == value@[j],
        decreases normalized@.len() - i,
    {
        if normalized[i] == '\\' {
            normalized.set(i, '/');
        }
        i += 1;
    }
    assert(normalized@ =~= slashed(value@));
    let start: usize = match last_position_of(&normalized, '/') {
        Some(i) => i + 1,
        None => 0,
    };
    let part = slice_subrange(&normalized, start, normalized.len());
    assert(part@ =~= last_part(slashed(value@)));
    let name = trimmed(part);
    let result = text_of(name);
    if name.len() == 0 || spells(name, ".") || spells(name, "..") || byte_length(result.as_str())
        > MAX_NAME_BYTES {
        return Err(TransferError::new(ErrorKind::UnsafeFilename));
    }
    let mut k: usize = 0;
    while k < name.len()
        invariant
            k <= name@.len(),
            name@ == text::trim(last_part(slashed(value@))),
            forall|j: int| 0 <= j < k ==> !text::is_control(#[trigger] name@[j]),
        decreases name@.len() - k,
    {
        if control(name[k]) {
            assert(text::is_control(name@[k as int]));
            return Err(TransferError::new(ErrorKind::UnsafeFilename));
        }
        k += 1;
    }
    Ok(result)
}

// ---------------------------------------------------------------------------------------------
// Numbered names

/// A number in brackets behind a blank.
pub open spec fn numbered(index: nat) -> Seq<char> {
    " ("@ + text::decimal(index) + ")"@
}

/// The name for the given attempt to save a file: first the name itself, then with the number of
/// the attempt in front of the extension.
pub open spec fn candidate_name(filename: Seq<char>, index: nat) -> Seq<char> {
    if index == 0 {
        filename
    } else {
        match paths::file_name(filename) {
            Some(name) => paths::name_stem(name) + numbered(index) + paths::name_extension(name),
            None => filename + numbered(index),
        }
    }
}

/// The name for the given attempt to make a directory for an extracted archive.
pub open spec fn extraction_name(name: Seq<char>, index: nat) -> Seq<char> {
    if index == 0 {
        name
    } else {
        name + numbered(index)
    }
}

fn append_number(name: &mut String, index: u32)
    ensures
        final(name)@ == old(name)@ + numbered(index as nat),
{
    name.append(" (");
    let digits = decimal_text(index as u128);
    name.append(digits.as_str());
    name.append(")");
    assert(name@ =~= old(name)@ + numbered(index as nat));
}

pub fn candidate_name_of(filename: &str, index: u32) -> (r: String)
    ensures
        r@ == candidate_name(filename@, index as nat),
{
    if index == 0 {
        return filename.to_owned();
    }
    let chars = chars_of(filename);
    match file_name_of(&chars) {
        Some(name) => {
            let (stem, extension) = stem_and_extension(&name);
            let mut result = text_of(stem);
            append_number(&mut result, index);
            append_chars(&mut result, extension);
            result
        },
        None => {
            let mut result = filename.to_owned();
            append_number(&mut result, index);
            result
        },
    }
}

pub fn extraction_name_of(name: &str, index: u32) -> (r: String)
    ensures
        r@ == extraction_name(name@, index as nat),
{
    let mut result = name.to_owned();
    if index > 0 {
        append_number(&mut result, index);
    }
    result
}

/// The paths under which a file may be saved in a directory, in the order in which they are tried.
pub fn destination_candidates(directory: &str, filename: &str) -> (r: Vec<String>)
    ensures
        r@.len() == MAX_CANDIDATES,
        forall|i: int|
            0 <= i < r@.len() ==> (#[trigger] r@[i])@ == paths::join(
                directory@,
                candidate_name(filename@, i as nat),
            ),
{
    let mut candidates: Vec<String> = Vec::new();
    let mut index: u32 = 0;
    while index < MAX_CANDIDATES
        invariant
            index <= MAX_CANDIDATES,
            candidates@.len() == index,
            forall|i: int|
                0 <= i < candidates@.len() ==> (#[trigger] candidates@[i])@ == paths::join(
                    directory@,
                    candidate_name(filename@, i as nat),
                ),
        decreases MAX_CANDIDATES - index,
    {
        let name = candidate_name_of(filename, index);
        candidates.push(joined(directory, name.as_str()));
        index += 1;
    }
    candidates
}

// ---------------------------------------------------------------------------------------------
// Names of archives

/// The name that a directory is sent under.
pub open spec fn archive_name(directory: Seq<char>) -> Seq<char> {
    directory + ".tar.gz"@
}

pub fn archive_name_of(directory: &str) -> (r: String)
    ensures
        r@ == archive_name(directory@),
{
    let mut name = directory.to_owned();
    name.append(".tar.gz");
    name
}

/// The name of the directory that an archive is extracted to: the archive's name without `.tar.gz`
/// or `.tgz`.
pub open spec fn extraction_stem(filename: Seq<char>) -> Seq<char> {
    if text::finishes_with(filename, ".tar.gz"@) {
        filename.take(filename.len() - 7)
    } else if text::finishes_with(filename, ".tgz"@) {
        filename.take(filename.len() - 4)
    } else {
        filename
    }
}

pub fn extraction_stem_of(filename: &str) -> (r: String)
    ensures
        r@ == extraction_stem(filename@),
{
    proof {
        reveal_strlit(".tar.gz");
        reveal_strlit(".tgz");
    }
    let chars = chars_of(filename);
    let long = chars_of(".tar.gz");
    let short = chars_of(".tgz");
    if ends_with(&chars, &long) {
        let stem = slice_subrange(&chars, 0, chars.len() - 7);
        assert(stem@ =~= filename@.take(filename@.len() - 7));
        return text_of(stem);
    }
    if ends_with(&chars, &short) {
        let stem = slice_subrange(&chars, 0, chars.len() - 4);
        assert(stem@ =~= filename@.take(filename@.len() - 4));
        return text_of(stem);
    }
    filename.to_owned()
}

/// The name of the archive that is made of a directory before it is sent.
pub fn temporary_archive_name(process: u32, moment: u128) -> (r: String)
    ensures
        r@ == "herdr-archive-"@ + text::decimal(process as nat) + "-"@ + text::decimal(
            moment as nat,
        ) + ".tar.gz"@,
{
    let mut name = "herdr-archive-".to_owned();
    let first = decimal_text(process as u128);
    name.append(first.as_str());
    name.append("-");
    let second = decimal_text(moment);
    name.append(second.as_str());
    name.append(".tar.gz");
    name
}

// ---------------------------------------------------------------------------------------------
// The search for a free name

/// What a free name is searched for.
pub enum Purpose {
    /// A file that a body is received into, marked by the process and the moment.
    Temporary { process: u32, moment: u128 },
    /// The final place of a received file.
    Destination { filename: String },
    /// The directory of an extracted archive.
    Extraction { name: String },
}

/// The model of a purpose.
pub enum PurposeModel {
    Temporary { process: nat, moment: nat },
    Destination { filename: Seq<char> },
    Extraction { name: Seq<char> },
}

impl View for Purpose {
    type V = PurposeModel;

    open spec fn view(&self) -> PurposeModel {
        match self {
            Purpose::Temporary { process, moment } => PurposeModel::Temporary {
                process: *process as nat,
                moment: *moment as nat,
            },
            Purpose::Destination { filename } => PurposeModel::Destination { filename: filename@ },
            Purpose::Extraction { name } => PurposeModel::Extraction { name: name@ },
        }
    }
}

/// The name of a temporary file.
pub open spec fn temporary_name(process: nat, moment: nat, attempt: nat) -> Seq<char> {
    ".herdr-download-"@ + text::decimal(process) + "-"@ + text::decimal(moment) + "-"@
        + text::decimal(attempt) + ".part"@
}

impl PurposeModel {
    /// The name that is tried at the given attempt.
    pub open spec fn name(self, attempt: nat) -> Seq<char> {
        match self {
            PurposeModel::Temporary { process, moment } => temporary_name(process, moment, attempt),
            PurposeModel::Destination { filename } => candidate_name(filename, attempt),
            PurposeModel::Extraction { name } => extraction_name(name, attempt),
        }
    }

    /// How many names are tried.
    pub open spec fn limit(self) -> nat {
        match self {
            PurposeModel::Temporary { .. } => MAX_TEMPORARY_CANDIDATES as nat,
            _ => MAX_CANDIDATES as nat,
        }
    }

    /// The fault when every name is taken.
    pub open spec fn exhausted(self) -> error::Fault {
        match self {
            PurposeModel::Temporary { .. } => error::fault(ErrorKind::NoTemporaryName),
            PurposeModel::Destination { .. } => error::fault(ErrorKind::NoDestinationName),
            PurposeModel::Extraction { .. } => error::fault(ErrorKind::NoExtractionName),
        }
    }

    /// The fault when a name cannot be made.
    pub open spec fn failed(self, detail: Seq<char>) -> error::Fault {
        match self {
            PurposeModel::Temporary { .. } => error::fault_about(
                ErrorKind::CannotCreateTemporary,
                detail,
            ),
            PurposeModel::Destination { .. } => error::fault_about(ErrorKind::CannotCommit, detail),
            PurposeModel::Extraction { .. } => error::fault_about(
                ErrorKind::CannotCreateExtraction,
                detail,
            ),
        }
    }
}

/// What came of the attempt to make a name without touching an existing one.
pub enum Creation {
    Created,
    AlreadyExists,
    Failed(String),
}

/// The model of an outcome.
pub enum CreationModel {
    Created,
    AlreadyExists,
    Failed(Seq<char>),
}

impl View for Creation {
    type V = CreationModel;

    open spec fn view(&self) -> CreationModel {
        match self {
            Creation::Created => CreationModel::Created,
            Creation::AlreadyExists => CreationModel::AlreadyExists,
            Creation::Failed(detail) => CreationModel::Failed(detail@),
        }
    }
}

/// What is to be done next.
pub enum SearchStep {
    /// Try this name.
    Try(String),
    /// This name was made.
    Found(String),
    /// The search is over without a name.
    Stopped(TransferError),
}

/// The model of a step.
pub enum SearchStepModel {
    Try(Seq<char>),
    Found(Seq<char>),
    Stopped(error::Fault),
}

impl View for SearchStep {
    type V = SearchStepModel;

    open spec fn view(&self) -> SearchStepModel {
        match self {
            SearchStep::Try(name) => SearchStepModel::Try(name@),
            SearchStep::Found(name) => SearchStepModel::Found(name@),
            SearchStep::Stopped(error) => SearchStepModel::Stopped(error@),
        }
    }
}

/// How a search goes on: the number of names found taken, and the step. A name that was made is
/// the result, a name that is taken leads to the next one, any other failure ends the search.
pub open spec fn search_step(purpose: PurposeModel, taken: nat, outcome: CreationModel) -> (
    nat,
    SearchStepModel,
) {
    match outcome {
        CreationModel::Created => (taken, SearchStepModel::Found(purpose.name(taken))),
        CreationModel::AlreadyExists => (
            taken + 1,
            if taken + 1 < purpose.limit() {
                SearchStepModel::Try(purpose.name(taken + 1))
            } else {
                SearchStepModel::Stopped(purpose.exhausted())
            },
        ),
        CreationModel::Failed(detail) => (taken, SearchStepModel::Stopped(purpose.failed(detail))),
    }
}

/// The step that a search stands at after the given outcomes; once it is over it stays so.
pub open spec fn search_run(purpose: PurposeModel, taken: nat, outcomes: Seq<CreationModel>) ->
    SearchStepModel
    decreases outcomes.len(),
{
    if outcomes.len() == 0 {
        SearchStepModel::Try(purpose.name(taken))
    } else {
        let (next, step) = search_step(purpose, taken, outcomes[0]);
        match step {
            SearchStepModel::Try(_) => search_run(purpose, next, outcomes.skip(1)),
            _ => step,
        }
    }
}

/// The search for a free name: how many names were found taken so far.
pub struct NameSearch {
    purpose: Purpose,
    taken: u32,
}

impl NameSearch {
    pub closed spec fn purpose(&self) -> PurposeModel {
        self.purpose@
    }

    /// How many names were found taken.
    pub closed spec fn taken(&self) -> nat {
        self.taken as nat
    }

    /// A search has a name left to try.
    pub open spec fn is_open(&self) -> bool {
        self.taken() < self.purpose().limit()
    }

    pub fn new(purpose: Purpose) -> (r: Self)
        ensures
            r.purpose() == purpose@,
            r.taken() == 0,
            r.is_open(),
    {
        NameSearch { purpose, taken: 0 }
    }

    /// The name to try now.
    pub fn name(&self) -> (r: String)
        ensures
            r@ == self.purpose().name(self.taken()),
    {
        match &self.purpose {
            Purpose::Temporary { process, moment } => {
                let mut name = ".herdr-download-".to_owned();
                let first = decimal_text(*process as u128);
                name.append(first.as_str());
                name.append("-");
                let second = decimal_text(*moment);
                name.append(second.as_str());
                name.append("-");
                let third = decimal_text(self.taken as u128);
                name.append(third.as_str());
                name.append(".part");
                name
            },
            Purpose::Destination { filename } => candidate_name_of(filename.as_str(), self.taken),
            Purpose::Extraction { name } => extraction_name_of(name.as_str(), self.taken),
        }
    }

    fn attempts(&self) -> (r: u32)
        ensures
            r == self.purpose().limit(),
    {
        match &self.purpose {
            Purpose::Temporary { .. } => MAX_TEMPORARY_CANDIDATES,
            Purpose::Destination { .. } => MAX_CANDIDATES,
            Purpose::Extraction { .. } => MAX_CANDIDATES,
        }
    }

    fn exhausted(&self) -> (r: TransferError)
        ensures
            r@ == self.purpose().exhausted(),
    {
        match &self.purpose {
            Purpose::Temporary { .. } => TransferError::new(ErrorKind::NoTemporaryName),
            Purpose::Destination { .. } => TransferError::new(ErrorKind::NoDestinationName),
            Purpose::Extraction { .. } => TransferError::new(ErrorKind::NoExtractionName),
        }
    }

    fn failed(&self, detail: String) -> (r: TransferError)
        ensures
            r@ == self.purpose().failed(detail@),
    {
        match &self.purpose {
            Purpose::Temporary { .. } => TransferError::about(
                ErrorKind::CannotCreateTemporary,
                detail,
            ),
            Purpose::Destination { .. } => TransferError::about(ErrorKind::CannotCommit, detail),
            Purpose::Extraction { .. } => TransferError::about(
                ErrorKind::CannotCreateExtraction,
                detail,
            ),
        }
    }

    /// Goes on from what came of trying the current name.
    pub fn advance(&mut self, outcome: Creation) -> (r: SearchStep)
        requires
            old(self).is_open(),
        ensures
            final(self).purpose() == old(self).purpose(),
            (final(self).taken(), r@) == search_step(
                old(self).purpose(),
                old(self).taken(),
                outcome@,
            ),
    {
        match outcome {
            Creation::Created => SearchStep::Found(self.name()),
            Creation::AlreadyExists => {
                self.taken = self.taken + 1;
                if self.taken < self.attempts() {
                    SearchStep::Try(self.name())
                } else {
                    SearchStep::Stopped(self.exhausted())
                }
            },
            Creation::Failed(detail) => SearchStep::Stopped(self.failed(detail)),
        }
    }
}

// ---------------------------------------------------------------------------------------------
// Laws

/// A clean name cannot leave the directory it is saved in: it holds no separator and no control
/// character, is neither `.` nor `..`, and is the final component of every path that it is joined
/// to.
pub proof fn law_clean_name_stays_in_its_directory(value: Seq<char>, directory: Seq<char>)
    requires
        clean_name(value) is Ok,
    ensures
        ({
            let name = clean_name(value)->Ok_0;
            &&& is_clean(name)
            &&& !name.contains('/')
            &&& !name.contains('\\')
            &&& paths::file_name(name) == Some(name)
            &&& paths::file_name(paths::join(directory, name)) == Some(name)
            &&& !paths::is_absolute(name)
        }),
{
    let name = clean_name(value)->Ok_0;
    let part = last_part(slashed(value));
    text::lemma_trim_ends(part);
    text::lemma_last_index(slashed(value), '/');
    assert forall|i: int| 0 <= i < name.len() implies name[i] != '/' && name[i] != '\\' by {
        assert(part.contains(name[i]));
        let at = choose|at: int| 0 <= at < part.len() && part[at] == name[i];
        assert(slashed(value).contains(part[at])) by {
            let offset = slashed(value).len() - part.len();
            assert(slashed(value)[offset + at] == part[at]);
        }
    }
    paths::law_joined_name_is_the_file_name(directory, name);
}

/// Cleaning a clean name changes nothing.
pub proof fn law_cleaning_is_idempotent(value: Seq<char>)
    requires
        clean_name(value) is Ok,
    ensures
        is_settled(clean_name(value)->Ok_0),
{
    let name = clean_name(value)->Ok_0;
    law_clean_name_stays_in_its_directory(value, seq![]);
    assert forall|i: int| 0 <= i < name.len() implies name[i] != '/' && name[i] != '\\' by {
        assert(name.contains(name[i]));
    }
    assert(slashed(name) =~= name);
    text::lemma_last_index(name, '/');
    assert(last_part(name) == name);
    text::law_trim_is_idempotent(last_part(slashed(value)));
}

proof fn lemma_numbered_apart(front: Seq<char>, back: Seq<char>, a: nat, b: nat)
    requires
        front + numbered(a) + back == front + numbered(b) + back,
    ensures
        a == b,
{
    let left = front + numbered(a) + back;
    let right = front + numbered(b) + back;
    let n = front.len() as int;
    let m = " ("@.len() as int;
    assert(left.subrange(n + m, n + m + text::decimal(a).len()) =~= text::decimal(a));
    assert(right.subrange(n + m, n + m + text::decimal(b).len()) =~= text::decimal(b));
    assert(left.len() == right.len());
    text::law_decimal_is_injective(a, b);
}

/// The names that are tried for a file are all different, so no attempt repeats an earlier one.
pub proof fn law_candidate_names_are_distinct(filename: Seq<char>, a: nat, b: nat)
    requires
        paths::file_name(filename) == Some(filename),
        candidate_name(filename, a) == candidate_name(filename, b),
    ensures
        a == b,
{
    let stem = paths::name_stem(filename);
    let extension = paths::name_extension(filename);
    text::lemma_last_index(filename, '.');
    assert(stem.len() + extension.len() == filename.len());
    reveal_strlit(" (");
    if a != 0 && b != 0 {
        lemma_numbered_apart(stem, extension, a, b);
    } else if a != 0 {
        assert(candidate_name(filename, a).len() > filename.len());
    } else if b != 0 {
        assert(candidate_name(filename, b).len() > filename.len());
    }
}

/// The paths under which a clean name may be saved are all different.
pub proof fn law_destinations_are_distinct(
    directory: Seq<char>,
    value: Seq<char>,
    a: nat,
    b: nat,
)
    requires
        clean_name(value) is Ok,
        paths::join(directory, candidate_name(clean_name(value)->Ok_0, a)) == paths::join(
            directory,
            candidate_name(clean_name(value)->Ok_0, b),
        ),
    ensures
        a == b,
{
    let name = clean_name(value)->Ok_0;
    law_clean_name_stays_in_its_directory(value, directory);
    lemma_candidate_is_relative(name, a);
    lemma_candidate_is_relative(name, b);
    paths::law_join_is_injective(directory, candidate_name(name, a), candidate_name(name, b));
    law_candidate_names_are_distinct(name, a, b);
}

proof fn lemma_candidate_is_relative(name: Seq<char>, index: nat)
    requires
        paths::file_name(name) == Some(name),
        !paths::is_absolute(name),
    ensures
        !paths::is_absolute(candidate_name(name, index)),
{
    reveal_strlit(" (");
    text::lemma_last_index(name, '.');
    if index > 0 {
        let stem = paths::name_stem(name);
        if stem.len() > 0 {
            assert(candidate_name(name, index)[0] == stem[0]);
        } else {
            assert(candidate_name(name, index)[0] == ' ');
        }
    }
}

/// The names that are tried for the directory of an extracted archive are all different.
pub proof fn law_extraction_names_are_distinct(name: Seq<char>, a: nat, b: nat)
    requires
        extraction_name(name, a) == extraction_name(name, b),
    ensures
        a == b,
{
    reveal_strlit(" (");
    let none: Seq<char> = seq![];
    if a != 0 && b != 0 {
        assert(name + numbered(a) + none =~= extraction_name(name, a));
        assert(name + numbered(b) + none =~= extraction_name(name, b));
        lemma_numbered_apart(name, none, a, b);
    } else if a != 0 {
        assert(extraction_name(name, a).len() > name.len());
    } else if b != 0 {
        assert(extraction_name(name, b).len() > name.len());
    }
}

/// Nothing that exists is ever taken over: a search ends with a name only where making that very
/// name succeeded, after every name before it was found taken.
pub proof fn law_found_name_was_made(
    purpose: PurposeModel,
    taken: nat,
    outcomes: Seq<CreationModel>,
    name: Seq<char>,
)
    requires
        search_run(purpose, taken, outcomes) == SearchStepModel::Found(name),
    ensures
        exists|k: int|
            0 <= k < outcomes.len() && #[trigger] outcomes[k] == CreationModel::Created && name
                == purpose.name((taken + k) as nat) && forall|j: int|
                0 <= j < k ==> #[trigger] outcomes[j] == CreationModel::AlreadyExists,
    decreases outcomes.len(),
{
    if outcomes.len() > 0 {
        if outcomes[0] == CreationModel::AlreadyExists {
            let rest = outcomes.skip(1);
            law_found_name_was_made(purpose, taken + 1, rest, name);
            let k = choose|k: int|
                0 <= k < rest.len() && #[trigger] rest[k] == CreationModel::Created && name
                    == purpose.name((taken + 1 + k) as nat) && forall|j: int|
                    0 <= j < k ==> #[trigger] rest[j] == CreationModel::AlreadyExists;
            assert(outcomes[k + 1] == rest[k]);
            assert forall|j: int| 0 <= j < k + 1 implies #[trigger] outcomes[j]
                == CreationModel::AlreadyExists by {
                if j > 0 {
                    assert(outcomes[j] == rest[j - 1]);
                }
            }
        } else {
            assert(outcomes[0] == CreationModel::Created);
        }
    }
}

/// A directory that was sent as an archive is extracted under its own name.
pub proof fn law_archive_is_extracted_under_its_name(directory: Seq<char>)
    ensures
        extraction_stem(archive_name(directory)) == directory,
{
    reveal_strlit(".tar.gz");
    let name = archive_name(directory);
    assert(name.subrange(name.len() - 7, name.len() as int) =~= ".tar.gz"@);
    assert(name.take(name.len() - 7) =~= directory);
}

/// A duplicate gets its number in front of the extension.
pub proof fn law_duplicate_is_numbered(stem: Seq<char>, extension: Seq<char>, index: nat)
    requires
        index > 0,
        stem.len() > 0,
        extension.len() > 0,
        !stem.contains('/'),
        !extension.contains('/'),
        !extension.contains('.'),
    ensures
        candidate_name(stem + "."@ + extension, index) == stem + numbered(index) + ("."@
            + extension),
{
    reveal_strlit(".");
    reveal_strlit("..");
    let name = stem + "."@ + extension;
    let dot = stem.len() as int;
    assert forall|i: int| 0 <= i < name.len() implies #[trigger] name[i] != '/' by {
        if i < dot {
            assert(stem.contains(stem[i]));
        } else if i > dot {
            assert(extension.contains(extension[i - dot - 1]));
        }
    }
    assert(!name.contains('/'));
    text::lemma_split_single(name, '/');
    assert(name.len() >= 3);
    let pieces = text::split(name, '/');
    assert(pieces.last() == name);
    assert(name != "."@ && name != ".."@) by {
        assert("."@.len() == 1 && ".."@.len() == 2);
    }
    assert(name[dot] == '.');
    assert forall|j: int| dot < j < name.len() implies #[trigger] name[j] != '.' by {
        assert(name[j] == extension[j - dot - 1]);
        assert(extension.contains(extension[j - dot - 1]));
    }
    text::lemma_last_index_is(name, '.', dot);
    assert(name.take(dot) =~= stem);
    assert(name.skip(dot) =~= "."@ + extension);
}

/// A text without slashes.
pub open spec fn is_flat(s: Seq<char>) -> bool {
    !s.contains('/')
}

proof fn lemma_flat_join(a: Seq<char>, b: Seq<char>)
    requires
        is_flat(a),
        is_flat(b),
    ensures
        is_flat(a + b),
{
    assert forall|i: int| 0 <= i < (a + b).len() implies #[trigger] (a + b)[i] != '/' by {
        if i < a.len() {
            assert(a.contains(a[i]));
        } else {
            assert(b.contains(b[i - a.len()]));
        }
    }
}

proof fn lemma_flat_part(s: Seq<char>, from: int, to: int)
    requires
        is_flat(s),
        0 <= from <= to <= s.len(),
    ensures
        is_flat(s.subrange(from, to)),
{
    let part = s.subrange(from, to);
    assert forall|i: int| 0 <= i < part.len() implies #[trigger] part[i] != '/' by {
        assert(s.contains(s[from + i]));
    }
}

proof fn lemma_decimal_is_flat(n: nat)
    ensures
        is_flat(text::decimal(n)),
{
    text::lemma_decimal_digits(n);
    let s = text::decimal(n);
    assert forall|i: int| 0 <= i < s.len() implies #[trigger] s[i] != '/' by {
        assert(text::is_digit(s[i]));
    }
}

proof fn lemma_numbered_is_flat(index: nat)
    ensures
        is_flat(numbered(index)),
        numbered(index).len() > 3,
{
    reveal_strlit(" (");
    reveal_strlit(")");
    lemma_decimal_is_flat(index);
    text::lemma_decimal_digits(index);
    lemma_flat_join(" ("@, text::decimal(index));
    lemma_flat_join(" ("@ + text::decimal(index), ")"@);
}

proof fn lemma_temporary_is_flat(process: nat, moment: nat, attempt: nat)
    ensures
        is_flat(temporary_name(process, moment, attempt)),
        temporary_name(process, moment, attempt).len() > 3,
{
    reveal_strlit(".herdr-download-");
    reveal_strlit("-");
    reveal_strlit(".part");
    let a = ".herdr-download-"@;
    let b = text::decimal(process);
    let c = text::decimal(moment);
    let d = text::decimal(attempt);
    lemma_decimal_is_flat(process);
    lemma_decimal_is_flat(moment);
    lemma_decimal_is_flat(attempt);
    lemma_flat_join(a, b);
    lemma_flat_join(a + b, "-"@);
    lemma_flat_join(a + b + "-"@, c);
    lemma_flat_join(a + b + "-"@ + c, "-"@);
    lemma_flat_join(a + b + "-"@ + c + "-"@, d);
    lemma_flat_join(a + b + "-"@ + c + "-"@ + d, ".part"@);
}

/// The name that a file or directory is to get is a clean one.
pub open spec fn is_safe_purpose(purpose: PurposeModel) -> bool {
    match purpose {
        PurposeModel::Temporary { .. } => true,
        PurposeModel::Destination { filename } => is_settled(filename),
        PurposeModel::Extraction { name } => is_settled(name),
    }
}

/// Every name that is tried stays in its directory: joined to a directory it is the final component
/// of the path.
pub proof fn law_tried_names_stay_in_their_directory(
    purpose: PurposeModel,
    attempt: nat,
    directory: Seq<char>,
)
    requires
        is_safe_purpose(purpose),
    ensures
        is_flat(purpose.name(attempt)),
        paths::file_name(paths::join(directory, purpose.name(attempt))) == Some(
            purpose.name(attempt),
        ),
{
    reveal_strlit(".");
    reveal_strlit("..");
    let tried = purpose.name(attempt);
    match purpose {
        PurposeModel::Temporary { process, moment } => {
            lemma_temporary_is_flat(process, moment, attempt);
        },
        PurposeModel::Destination { filename } => {
            law_clean_name_stays_in_its_directory(filename, directory);
            if attempt > 0 {
                let stem = paths::name_stem(filename);
                let extension = paths::name_extension(filename);
                text::lemma_last_index(filename, '.');
                match paths::extension_dot(filename) {
                    Some(i) => {
                        assert(stem =~= filename.subrange(0, i));
                        assert(extension =~= filename.subrange(i, filename.len() as int));
                        lemma_flat_part(filename, 0, i);
                        lemma_flat_part(filename, i, filename.len() as int);
                    },
                    None => {},
                }
                lemma_numbered_is_flat(attempt);
                lemma_flat_join(stem, numbered(attempt));
                lemma_flat_join(stem + numbered(attempt), extension);
                assert(tried.len() > 3);
            }
        },
        PurposeModel::Extraction { name } => {
            law_clean_name_stays_in_its_directory(name, directory);
            if attempt > 0 {
                lemma_numbered_is_flat(attempt);
                lemma_flat_join(name, numbered(attempt));
                assert(tried.len() > 3);
            }
        },
    }
    assert("."@.len() == 1 && ".."@.len() == 2);
    paths::law_joined_name_is_the_file_name(directory, tried);
}

/// A file is first saved under the very name that was announced, and an archive is first extracted
/// under its own: a search whose first name is free ends with that name.
pub proof fn law_first_name_is_the_announced_one(name: Seq<char>, outcomes: Seq<CreationModel>)
    ensures
        candidate_name(name, 0) == name,
        extraction_name(name, 0) == name,
        search_run(PurposeModel::Destination { filename: name }, 0, seq![]) == SearchStepModel::Try(
            name,
        ),
        search_run(PurposeModel::Extraction { name }, 0, seq![]) == SearchStepModel::Try(name),
        outcomes.len() > 0 && outcomes[0] == CreationModel::Created ==> search_run(
            PurposeModel::Destination { filename: name },
            0,
            outcomes,
        ) == SearchStepModel::Found(name) && search_run(
            PurposeModel::Extraction { name },
            0,
            outcomes,
        ) == SearchStepModel::Found(name),
{
}

/// A name that is taken gets the number of the attempt, in brackets behind a blank: in front of its
/// extension, or at its end where it has none.
pub proof fn law_taken_names_are_numbered(stem: Seq<char>, extension: Seq<char>, index: nat)
    requires
        index > 0,
        stem.len() > 0,
        !stem.contains('/'),
        !extension.contains('/'),
        !extension.contains('.'),
    ensures
        ({
            let number = " ("@ + text::decimal(index) + ")"@;
            &&& extension.len() > 0 ==> candidate_name(stem + "."@ + extension, index) == stem
                + number + "."@ + extension
            &&& !stem.contains('.') ==> candidate_name(stem, index) == stem + number
            &&& !stem.contains('.') ==> candidate_name("."@ + stem, index) == "."@ + stem + number
            &&& extraction_name(stem, index) == stem + number
        }),
{
    let number = " ("@ + text::decimal(index) + ")"@;
    if extension.len() > 0 {
        law_duplicate_is_numbered(stem, extension, index);
        assert(stem + number + ("."@ + extension) =~= stem + number + "."@ + extension);
    }
    if !stem.contains('.') {
        reveal_strlit(".");
        reveal_strlit("..");
        let hidden = "."@ + stem;
        assert("."@.len() == 1 && ".."@.len() == 2);
        assert(stem.contains(stem[0]));
        assert(stem != "."@ && stem != ".."@) by {
            assert("."@[0] == '.' && ".."@[0] == '.');
        }
        assert(hidden != ".."@) by {
            assert(hidden[1] == stem[0]);
            assert(".."@[1] == '.');
        }
        assert(hidden != "."@);
        lemma_flat_join("."@, stem);
        paths::law_joined_name_is_the_file_name(seq![], stem);
        paths::law_joined_name_is_the_file_name(seq![], hidden);
        paths::law_names_are_divided_at_their_last_dot(stem, stem);
        let none: Seq<char> = seq![];
        assert(paths::name_extension(stem) =~= none);
        assert(paths::name_extension(hidden) =~= none);
        assert(stem + number + none =~= stem + number);
        assert(hidden + number + none =~= hidden + number);
    }
}

/// So many names are tried before a search is given up.
pub proof fn law_so_many_names_are_tried(name: Seq<char>, process: nat, moment: nat)
    ensures
        (PurposeModel::Destination { filename: name }).limit() == 10_000,
        (PurposeModel::Extraction { name }).limit() == 10_000,
        (PurposeModel::Temporary { process, moment }).limit() == 100,
{
}

/// A search goes through the names in turn: it ends with the first one that is free, is given up
/// where none of them is, and is stopped by any other failure.
pub proof fn law_search_takes_the_first_free_name(
    purpose: PurposeModel,
    taken: nat,
    outcomes: Seq<CreationModel>,
    k: int,
)
    requires
        0 <= k < outcomes.len(),
        forall|j: int| 0 <= j < k ==> #[trigger] outcomes[j] == CreationModel::AlreadyExists,
        taken + k < purpose.limit(),
    ensures
        outcomes[k] == CreationModel::Created ==> search_run(purpose, taken, outcomes)
            == SearchStepModel::Found(purpose.name((taken + k) as nat)),
        outcomes[k] is Failed ==> search_run(purpose, taken, outcomes) == SearchStepModel::Stopped(
            purpose.failed(outcomes[k]->Failed_0),
        ),
        outcomes[k] == CreationModel::AlreadyExists && taken + k + 1 == purpose.limit()
            ==> search_run(purpose, taken, outcomes) == SearchStepModel::Stopped(
            purpose.exhausted(),
        ),
        outcomes[k] == CreationModel::AlreadyExists && taken + k + 1 < purpose.limit()
            && outcomes.len() == k + 1 ==> search_run(purpose, taken, outcomes)
            == SearchStepModel::Try(purpose.name((taken + k + 1) as nat)),
    decreases k,
{
    if k > 0 {
        let rest = outcomes.skip(1);
        assert(outcomes[0] == CreationModel::AlreadyExists);
        assert forall|j: int| 0 <= j < k - 1 implies #[trigger] rest[j]
            == CreationModel::AlreadyExists by {
            assert(rest[j] == outcomes[j + 1]);
        }
        law_search_takes_the_first_free_name(purpose, taken + 1, rest, k - 1);
    } else {
        reveal_with_fuel(search_run, 2);
    }
}

/// A text without separators.
pub open spec fn is_single(s: Seq<char>) -> bool {
    !s.contains('/') && !s.contains('\\')
}

proof fn lemma_single_is_last(s: Seq<char>)
    requires
        is_single(s),
    ensures
        last_part(slashed(s)) == s,
{
    assert forall|i: int| 0 <= i < s.len() implies #[trigger] s[i] != '/' && s[i] != '\\' by {
        assert(s.contains(s[i]));
    }
    assert(slashed(s) =~= s);
    text::lemma_last_index(s, '/');
}

/// A name is kept letter by letter unless it is unsafe: it is refused exactly where it is empty, `.`
/// or `..`, holds a control character, or is longer than two hundred and forty bytes.
pub proof fn law_safe_names_are_kept(name: Seq<char>)
    requires
        is_single(name),
        name.len() > 0 ==> !text::is_space(name[0]) && !text::is_space(name.last()),
    ensures
        ({
            let safe = name.len() > 0 && name != "."@ && name != ".."@ && (forall|i: int|
                0 <= i < name.len() ==> !text::is_control(#[trigger] name[i])) && encode_utf8(
                name,
            ).len() <= 240;
            &&& safe ==> clean_name(name) == Ok::<Seq<char>, error::Fault>(name)
            &&& !safe ==> clean_name(name) == Err::<Seq<char>, error::Fault>(
                error::fault(ErrorKind::UnsafeFilename),
            )
        }),
{
    lemma_single_is_last(name);
    text::lemma_trim_fixed(name);
    if forall|i: int| 0 <= i < name.len() ==> !text::is_control(#[trigger] name[i]) {
        assert(text::all_in(name, |c: char| !text::is_control(c)));
    } else {
        let i = choose|i: int| 0 <= i < name.len() && text::is_control(#[trigger] name[i]);
        assert(!(|c: char| !text::is_control(c))(name[i]));
    }
}

/// Directories in front of a name, of either kind of separator, and white space around it do not
/// count.
pub proof fn law_only_the_last_part_counts(
    directory: Seq<char>,
    separator: char,
    front: Seq<char>,
    name: Seq<char>,
    back: Seq<char>,
)
    requires
        separator == '/' || separator == '\\',
        is_single(name),
        name.len() > 0 ==> !text::is_space(name[0]) && !text::is_space(name.last()),
        text::all_in(front, |c: char| text::is_space(c)),
        text::all_in(back, |c: char| text::is_space(c)),
    ensures
        clean_name(directory.push(separator) + (front + name + back)) == clean_name(name),
        clean_name(front + name + back) == clean_name(name),
{
    let padded = front + name + back;
    assert forall|i: int| 0 <= i < padded.len() implies #[trigger] padded[i] != '/' && padded[i]
        != '\\' by {
        if i < front.len() {
            assert(text::is_space(front[i]));
        } else if i < front.len() + name.len() {
            assert(name.contains(name[i - front.len()]));
        } else {
            assert(text::is_space(back[i - front.len() - name.len()]));
        }
    }
    assert(is_single(padded));
    lemma_single_is_last(padded);
    lemma_single_is_last(name);
    text::lemma_trim_padding(front, name, back);
    text::lemma_trim_fixed(name);
    let whole = directory.push(separator) + padded;
    let n = directory.len() as int;
    let s = slashed(whole);
    assert(s[n] == '/');
    assert forall|j: int| n < j < s.len() implies #[trigger] s[j] != '/' by {
        assert(whole[j] == padded[j - n - 1]);
    }
    text::lemma_last_index_is(s, '/', n);
    assert(s.skip(n + 1) =~= padded);
}

/// An archive is extracted under its name without the ending; a name with neither ending is kept.
pub proof fn law_archive_endings_are_taken_off(stem: Seq<char>, name: Seq<char>)
    ensures
        archive_name(stem) == stem + ".tar.gz"@,
        extraction_stem(stem + ".tar.gz"@) == stem,
        extraction_stem(stem + ".tgz"@) == stem,
        !text::finishes_with(name, ".tar.gz"@) && !text::finishes_with(name, ".tgz"@)
            ==> extraction_stem(name) == name,
{
    reveal_strlit(".tar.gz");
    reveal_strlit(".tgz");
    law_archive_is_extracted_under_its_name(stem);
    let short = stem + ".tgz"@;
    text::law_fronts_and_backs_are_recognised(stem, ".tgz"@);
    assert(short.take(short.len() - 4) =~= stem);
    if text::finishes_with(short, ".tar.gz"@) {
        assert(short.subrange(short.len() - 7, short.len() as int)[3] == ".tar.gz"@[3]);
        assert(short[short.len() - 4] == ".tgz"@[0]);
    }
}

/// A temporary file is hidden, is marked as partial, and has a name of its own at every attempt.
pub proof fn law_temporary_names_are_hidden_and_distinct(
    process: nat,
    moment: nat,
    a: nat,
    b: nat,
)
    ensures
        temporary_name(process, moment, a).len() > 0,
        temporary_name(process, moment, a)[0] == '.',
        text::finishes_with(temporary_name(process, moment, a), ".part"@),
        temporary_name(process, moment, a) == temporary_name(process, moment, b) ==> a == b,
{
    reveal_strlit(".herdr-download-");
    reveal_strlit(".part");
    let front = ".herdr-download-"@ + text::decimal(process) + "-"@ + text::decimal(moment) + "-"@;
    let x = front + text::decimal(a) + ".part"@;
    let y = front + text::decimal(b) + ".part"@;
    assert(x == temporary_name(process, moment, a));
    assert(y == temporary_name(process, moment, b));
    text::law_fronts_and_backs_are_recognised(front + text::decimal(a), ".part"@);
    if x == y {
        let n = front.len() as int;
        assert(x.subrange(n, x.len() - 5) =~= text::decimal(a));
        assert(y.subrange(n, y.len() - 5) =~= text::decimal(b));
        text::law_decimal_is_injective(a, b);
    }
}

/// Each purpose has its own names, one for each attempt, and its own words for a failure and for
/// having tried all names.
pub proof fn law_names_are_made_for_their_purpose(
    name: Seq<char>,
    process: nat,
    moment: nat,
    attempt: nat,
    words: Seq<char>,
)
    ensures
        ({
            let destination = PurposeModel::Destination { filename: name };
            let extraction = PurposeModel::Extraction { name };
            let temporary = PurposeModel::Temporary { process, moment };
            &&& destination.name(attempt) == candidate_name(name, attempt)
            &&& extraction.name(attempt) == extraction_name(name, attempt)
            &&& temporary.name(attempt) == ".herdr-download-"@ + text::decimal(process) + "-"@
                + text::decimal(moment) + "-"@ + text::decimal(attempt) + ".part"@
            &&& destination.exhausted() == error::fault(ErrorKind::NoDestinationName)
            &&& extraction.exhausted() == error::fault(ErrorKind::NoExtractionName)
            &&& temporary.exhausted() == error::fault(ErrorKind::NoTemporaryName)
            &&& destination.failed(words) == error::fault_about(ErrorKind::CannotCommit, words)
            &&& extraction.failed(words) == error::fault_about(
                ErrorKind::CannotCreateExtraction,
                words,
            )
            &&& temporary.failed(words) == error::fault_about(
                ErrorKind::CannotCreateTemporary,
                words,
            )
        }),
{
}

/// A name that ends with a dot is numbered before the dot.
pub proof fn law_final_dot_stays_last(stem: Seq<char>, index: nat)
    requires
        index > 0,
        stem.len() > 0,
        stem != "."@,
        !stem.contains('/'),
    ensures
        candidate_name(stem + "."@, index) == stem + " ("@ + text::decimal(index) + ")."@,
{
    reveal_strlit(".");
    reveal_strlit(" (");
    reveal_strlit(")");
    reveal_strlit(").");
    reveal_strlit("..");
    let none: Seq<char> = seq![];
    let name = stem + "."@;
    assert(stem + "."@ + none =~= name);
    assert("."@ + none =~= "."@);
    paths::law_names_are_divided_at_their_last_dot(stem, none);
    assert forall|i: int| 0 <= i < name.len() implies #[trigger] name[i] != '/' by {
        if i < stem.len() {
            assert(stem.contains(stem[i]));
        }
    }
    assert(name.len() > 1 && "."@.len() == 1);
    if name == ".."@ {
        assert(stem =~= "."@) by {
            assert(name[0] == stem[0]);
        }
    }
    paths::law_joined_name_is_the_file_name(none, name);
    assert(stem + numbered(index) + "."@ =~= stem + " ("@ + text::decimal(index) + ")."@);
}

} // verus!
