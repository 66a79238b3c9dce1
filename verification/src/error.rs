//! Everything that can go wrong, and how it is told.
use vstd::prelude::*;

verus! {

/// What went wrong.
#[derive(Clone, Copy, Debug, PartialEq, Eq, Structural)]
pub enum ErrorKind {
    HomeNotSet,
    UnknownUser,
    UnsupportedUser,
    InvalidToken,
    InvalidEncodedFilename,
    UndecodableFilename,
    MissingFilename,
    UnsafeFilename,
    InvalidPercentEncoding,
    UrlNotUtf8,
    ForeignHost,
    UnsafeEntryPath,
    CannotCreateExtraction,
    NoExtractionName,
    NothingSelected,
    NotOneLine,
    NullInPath,
    NoCurrentDirectory,
    PathNotFound,
    InvalidContext,
    ContextNotObject,
    MissingPaneId,
    MissingPaneDirectory,
    ConnectionEnded,
    LineTooLarge,
    HeadersTooLarge,
    InvalidHeader,
    InvalidRequestLine,
    InvalidStatusLine,
    InvalidStatus,
    NoContentLength,
    InvalidContentLength,
    ResponseTooLarge,
    ZeroTimeout,
    ReceiverUnavailable,
    UnexpectedService,
    DirectoryNameNotUtf8,
    FilenameNotUtf8,
    NotTransferable,
    FileTooLarge,
    FileChanged,
    ReceiverRefused,
    InvalidResponse,
    NoFileChosen,
    ChosenNotRegular,
    ChosenTooLarge,
    ChosenNameNotUtf8,
    ChosenChangedInRead,
    ChosenChangedInTransfer,
    BatchTooLarge,
    CannotCreateTemporary,
    NoTemporaryName,
    CannotCommit,
    NoDestinationName,
    PickerNeedsMacOs,
    PickerCancelled,
    PickerFailed,
    PickerNotUtf8,
    UnsupportedKey,
    KeyInUse,
    InvalidKeyPattern,
    MegabytesZero,
    MegabytesTooLarge,
    InstallNeedsUnix,
    StatusNeedsUnix,
    /// Something outside failed, and said so in its own words.
    Outside,
}

/// An error: its kind, and the one thing it is about (a path, a host, a limit, or the words of an
/// underlying error). The subject is empty where the kind says all.
#[derive(Debug)]
pub struct TransferError {
    pub kind: ErrorKind,
    pub subject: String,
}

/// The model of an error.
#[verifier::ext_equal]
pub struct Fault {
    pub kind: ErrorKind,
    pub subject: Seq<char>,
}

impl View for TransferError {
    type V = Fault;

    open spec fn view(&self) -> Fault {
        Fault { kind: self.kind, subject: self.subject@ }
    }
}

/// A fault whose kind says all.
pub open spec fn fault(kind: ErrorKind) -> Fault {
    Fault { kind, subject: seq![] }
}

/// A fault about something.
pub open spec fn fault_about(kind: ErrorKind, subject: Seq<char>) -> Fault {
    Fault { kind, subject }
}

/// The model of a result that holds a text.
pub open spec fn text_result(r: Result<String, TransferError>) -> Result<Seq<char>, Fault> {
    match r {
        Ok(text) => Ok(text@),
        Err(error) => Err(error@),
    }
}

/// The model of a result that holds nothing.
pub open spec fn unit_result(r: Result<(), TransferError>) -> Result<(), Fault> {
    match r {
        Ok(_) => Ok(()),
        Err(error) => Err(error@),
    }
}

/// The model of a result that holds a number.
pub open spec fn number_result(r: Result<u64, TransferError>) -> Result<nat, Fault> {
    match r {
        Ok(n) => Ok(n as nat),
        Err(error) => Err(error@),
    }
}

impl ErrorKind {
    /// The words before the subject.
    pub open spec fn before(self) -> Seq<char> {
        match self {
            ErrorKind::HomeNotSet => "HOME is not set"@,
            ErrorKind::UnknownUser => "could not determine the remote user name: "@,
            ErrorKind::UnsupportedUser => "unsupported remote user name"@,
            ErrorKind::InvalidToken => "token must contain exactly 64 hexadecimal characters"@,
            ErrorKind::InvalidEncodedFilename => "invalid encoded filename"@,
            ErrorKind::UndecodableFilename => "invalid encoded filename: "@,
            ErrorKind::MissingFilename => "missing encoded filename"@,
            ErrorKind::UnsafeFilename => "unsafe or unsupported filename"@,
            ErrorKind::InvalidPercentEncoding => "invalid percent encoding in file URL"@,
            ErrorKind::UrlNotUtf8 => "file URL path is not valid UTF-8: "@,
            ErrorKind::ForeignHost => "file URL belongs to another host: "@,
            ErrorKind::UnsafeEntryPath => "archive contains an unsafe path: "@,
            ErrorKind::CannotCreateExtraction => "cannot create extraction directory: "@,
            ErrorKind::NoExtractionName => "could not allocate a unique extraction directory"@,
            ErrorKind::NothingSelected => "select one remote file path or click a file:// link first"@,
            ErrorKind::NotOneLine => "select exactly one file path"@,
            ErrorKind::NullInPath => "file path contains a null byte"@,
            ErrorKind::NoCurrentDirectory => "cannot determine current directory: "@,
            ErrorKind::PathNotFound => "path does not exist or is not a regular file or directory: "@,
            ErrorKind::InvalidContext => "HERDR_PLUGIN_CONTEXT_JSON is invalid: "@,
            ErrorKind::ContextNotObject => "HERDR_PLUGIN_CONTEXT_JSON must be an object"@,
            ErrorKind::MissingPaneId => "plugin context did not include focused_pane_id"@,
            ErrorKind::MissingPaneDirectory => "plugin context did not include focused_pane_cwd"@,
            ErrorKind::ConnectionEnded => "connection ended before HTTP headers"@,
            ErrorKind::LineTooLarge => "HTTP header line is too large"@,
            ErrorKind::HeadersTooLarge => "HTTP headers are too large"@,
            ErrorKind::InvalidHeader => "invalid HTTP header"@,
            ErrorKind::InvalidRequestLine => "invalid HTTP request line"@,
            ErrorKind::InvalidStatusLine => "receiver returned an invalid HTTP status line"@,
            ErrorKind::InvalidStatus => "receiver returned an invalid HTTP status: "@,
            ErrorKind::NoContentLength => "receiver response did not include Content-Length"@,
            ErrorKind::InvalidContentLength => "receiver returned an invalid Content-Length: "@,
            ErrorKind::ResponseTooLarge => "receiver response is too large"@,
            ErrorKind::ZeroTimeout => "transfer timeout must be greater than zero"@,
            ErrorKind::ReceiverUnavailable => "local receiver is unavailable through "@,
            ErrorKind::UnexpectedService => "unexpected service through "@,
            ErrorKind::DirectoryNameNotUtf8 => "directory name is not valid UTF-8"@,
            ErrorKind::FilenameNotUtf8 => "filename is not valid UTF-8"@,
            ErrorKind::NotTransferable => "not a regular file or directory: "@,
            ErrorKind::FileTooLarge => "file is larger than the "@,
            ErrorKind::FileChanged => "file changed while it was being transferred"@,
            ErrorKind::ReceiverRefused => "receiver returned HTTP "@,
            ErrorKind::InvalidResponse => "receiver returned an invalid response"@,
            ErrorKind::NoFileChosen => "select at least one file"@,
            ErrorKind::ChosenNotRegular => "selected path is not a regular file: "@,
            ErrorKind::ChosenTooLarge => "selected file is larger than the "@,
            ErrorKind::ChosenNameNotUtf8 => "selected filename is not valid UTF-8"@,
            ErrorKind::ChosenChangedInRead => "selected file changed while it was being read"@,
            ErrorKind::ChosenChangedInTransfer => "selected file changed while it was being transferred"@,
            ErrorKind::BatchTooLarge => "selected files are too large to transfer as one batch"@,
            ErrorKind::CannotCreateTemporary => "cannot create temporary file: "@,
            ErrorKind::NoTemporaryName => "could not allocate a temporary file"@,
            ErrorKind::CannotCommit => "cannot commit downloaded file: "@,
            ErrorKind::NoDestinationName => "could not allocate a unique destination filename"@,
            ErrorKind::PickerNeedsMacOs => "the connected file picker service must run on macOS"@,
            ErrorKind::PickerCancelled => "file selection was cancelled"@,
            ErrorKind::PickerFailed => "macOS file picker failed: "@,
            ErrorKind::PickerNotUtf8 => "file picker returned invalid UTF-8: "@,
            ErrorKind::UnsupportedKey => "keybinding contains unsupported characters"@,
            ErrorKind::KeyInUse => "keybinding is already in use: "@,
            ErrorKind::InvalidKeyPattern => ""@,
            ErrorKind::MegabytesZero => "--max-mb must be greater than zero"@,
            ErrorKind::MegabytesTooLarge => "--max-mb is too large"@,
            ErrorKind::InstallNeedsUnix => "service installation requires macOS or Linux"@,
            ErrorKind::StatusNeedsUnix => "service status requires macOS or Linux"@,
            ErrorKind::Outside => ""@,
        }
    }

    /// The words after the subject.
    pub open spec fn after(self) -> Seq<char> {
        match self {
            ErrorKind::ReceiverUnavailable => "; reconnect the Herdr remote session and verify its SSH RemoteForward"@,
            ErrorKind::UnexpectedService => "; verify the Herdr remote-download SSH RemoteForward"@,
            ErrorKind::FileTooLarge => " byte transfer limit"@,
            ErrorKind::ChosenTooLarge => " byte transfer limit"@,
            _ => ""@,
        }
    }

    fn words_before(self) -> (r: &'static str)
        ensures
            r@ == self.before(),
    {
        match self {
            ErrorKind::HomeNotSet => "HOME is not set",
            ErrorKind::UnknownUser => "could not determine the remote user name: ",
            ErrorKind::UnsupportedUser => "unsupported remote user name",
            ErrorKind::InvalidToken => "token must contain exactly 64 hexadecimal characters",
            ErrorKind::InvalidEncodedFilename => "invalid encoded filename",
            ErrorKind::UndecodableFilename => "invalid encoded filename: ",
            ErrorKind::MissingFilename => "missing encoded filename",
            ErrorKind::UnsafeFilename => "unsafe or unsupported filename",
            ErrorKind::InvalidPercentEncoding => "invalid percent encoding in file URL",
            ErrorKind::UrlNotUtf8 => "file URL path is not valid UTF-8: ",
            ErrorKind::ForeignHost => "file URL belongs to another host: ",
            ErrorKind::UnsafeEntryPath => "archive contains an unsafe path: ",
            ErrorKind::CannotCreateExtraction => "cannot create extraction directory: ",
            ErrorKind::NoExtractionName => "could not allocate a unique extraction directory",
            ErrorKind::NothingSelected => "select one remote file path or click a file:// link first",
            ErrorKind::NotOneLine => "select exactly one file path",
            ErrorKind::NullInPath => "file path contains a null byte",
            ErrorKind::NoCurrentDirectory => "cannot determine current directory: ",
            ErrorKind::PathNotFound => "path does not exist or is not a regular file or directory: ",
            ErrorKind::InvalidContext => "HERDR_PLUGIN_CONTEXT_JSON is invalid: ",
            ErrorKind::ContextNotObject => "HERDR_PLUGIN_CONTEXT_JSON must be an object",
            ErrorKind::MissingPaneId => "plugin context did not include focused_pane_id",
            ErrorKind::MissingPaneDirectory => "plugin context did not include focused_pane_cwd",
            ErrorKind::ConnectionEnded => "connection ended before HTTP headers",
            ErrorKind::LineTooLarge => "HTTP header line is too large",
            ErrorKind::HeadersTooLarge => "HTTP headers are too large",
            ErrorKind::InvalidHeader => "invalid HTTP header",
            ErrorKind::InvalidRequestLine => "invalid HTTP request line",
            ErrorKind::InvalidStatusLine => "receiver returned an invalid HTTP status line",
            ErrorKind::InvalidStatus => "receiver returned an invalid HTTP status: ",
            ErrorKind::NoContentLength => "receiver response did not include Content-Length",
            ErrorKind::InvalidContentLength => "receiver returned an invalid Content-Length: ",
            ErrorKind::ResponseTooLarge => "receiver response is too large",
            ErrorKind::ZeroTimeout => "transfer timeout must be greater than zero",
            ErrorKind::ReceiverUnavailable => "local receiver is unavailable through ",
            ErrorKind::UnexpectedService => "unexpected service through ",
            ErrorKind::DirectoryNameNotUtf8 => "directory name is not valid UTF-8",
            ErrorKind::FilenameNotUtf8 => "filename is not valid UTF-8",
            ErrorKind::NotTransferable => "not a regular file or directory: ",
            ErrorKind::FileTooLarge => "file is larger than the ",
            ErrorKind::FileChanged => "file changed while it was being transferred",
            ErrorKind::ReceiverRefused => "receiver returned HTTP ",
            ErrorKind::InvalidResponse => "receiver returned an invalid response",
            ErrorKind::NoFileChosen => "select at least one file",
            ErrorKind::ChosenNotRegular => "selected path is not a regular file: ",
            ErrorKind::ChosenTooLarge => "selected file is larger than the ",
            ErrorKind::ChosenNameNotUtf8 => "selected filename is not valid UTF-8",
            ErrorKind::ChosenChangedInRead => "selected file changed while it was being read",
            ErrorKind::ChosenChangedInTransfer => "selected file changed while it was being transferred",
            ErrorKind::BatchTooLarge => "selected files are too large to transfer as one batch",
            ErrorKind::CannotCreateTemporary => "cannot create temporary file: ",
            ErrorKind::NoTemporaryName => "could not allocate a temporary file",
            ErrorKind::CannotCommit => "cannot commit downloaded file: ",
            ErrorKind::NoDestinationName => "could not allocate a unique destination filename",
            ErrorKind::PickerNeedsMacOs => "the connected file picker service must run on macOS",
            ErrorKind::PickerCancelled => "file selection was cancelled",
            ErrorKind::PickerFailed => "macOS file picker failed: ",
            ErrorKind::PickerNotUtf8 => "file picker returned invalid UTF-8: ",
            ErrorKind::UnsupportedKey => "keybinding contains unsupported characters",
            ErrorKind::KeyInUse => "keybinding is already in use: ",
            ErrorKind::InvalidKeyPattern => "",
            ErrorKind::MegabytesZero => "--max-mb must be greater than zero",
            ErrorKind::MegabytesTooLarge => "--max-mb is too large",
            ErrorKind::InstallNeedsUnix => "service installation requires macOS or Linux",
            ErrorKind::StatusNeedsUnix => "service status requires macOS or Linux",
            ErrorKind::Outside => "",
        }
    }

    fn words_after(self) -> (r: &'static str)
        ensures
            r@ == self.after(),
    {
        match self {
            ErrorKind::ReceiverUnavailable => "; reconnect the Herdr remote session and verify its SSH RemoteForward",
            ErrorKind::UnexpectedService => "; verify the Herdr remote-download SSH RemoteForward",
            ErrorKind::FileTooLarge => " byte transfer limit",
            ErrorKind::ChosenTooLarge => " byte transfer limit",
            _ => "",
        }
    }
}

impl Fault {
    /// The message of an error: its subject within the words of its kind.
    pub open spec fn text(self) -> Seq<char> {
        self.kind.before() + self.subject + self.kind.after()
    }
}

impl TransferError {
    pub fn new(kind: ErrorKind) -> (r: Self)
        ensures
            r@ == fault(kind),
    {
        let r = TransferError { kind, subject: String::new() };
        assert(r@ =~= fault(kind));
        r
    }

    pub fn about(kind: ErrorKind, subject: String) -> (r: Self)
        ensures
            r@ == fault_about(kind, subject@),
    {
        TransferError { kind, subject }
    }

    /// The error in words.
    pub fn message(&self) -> (r: String)
        ensures
            r@ == self@.text(),
    {
        let mut text = self.kind.words_before().to_owned();
        text.append(self.subject.as_str());
        text.append(self.kind.words_after());
        text
    }
}

/// How every error is told: most kinds say all by themselves, and the others name the one thing that
/// they are about, as it is, within their words.
pub proof fn law_errors_are_spelled_out(kind: ErrorKind, subject: Seq<char>)
    ensures
        match kind {
            ErrorKind::HomeNotSet => fault(kind).text() == "HOME is not set"@,
            ErrorKind::UnknownUser => fault_about(kind, subject).text() == "could not determine the remote user name: "@ + subject,
            ErrorKind::UnsupportedUser => fault(kind).text() == "unsupported remote user name"@,
            ErrorKind::InvalidToken => fault(kind).text() == "token must contain exactly 64 hexadecimal characters"@,
            ErrorKind::InvalidEncodedFilename => fault(kind).text() == "invalid encoded filename"@,
            ErrorKind::UndecodableFilename => fault_about(kind, subject).text() == "invalid encoded filename: "@ + subject,
            ErrorKind::MissingFilename => fault(kind).text() == "missing encoded filename"@,
            ErrorKind::UnsafeFilename => fault(kind).text() == "unsafe or unsupported filename"@,
            ErrorKind::InvalidPercentEncoding => fault(kind).text() == "invalid percent encoding in file URL"@,
            ErrorKind::UrlNotUtf8 => fault_about(kind, subject).text() == "file URL path is not valid UTF-8: "@ + subject,
            ErrorKind::ForeignHost => fault_about(kind, subject).text() == "file URL belongs to another host: "@ + subject,
            ErrorKind::UnsafeEntryPath => fault_about(kind, subject).text() == "archive contains an unsafe path: "@ + subject,
            ErrorKind::CannotCreateExtraction => fault_about(kind, subject).text() == "cannot create extraction directory: "@ + subject,
            ErrorKind::NoExtractionName => fault(kind).text() == "could not allocate a unique extraction directory"@,
            ErrorKind::NothingSelected => fault(kind).text() == "select one remote file path or click a file:// link first"@,
            ErrorKind::NotOneLine => fault(kind).text() == "select exactly one file path"@,
            ErrorKind::NullInPath => fault(kind).text() == "file path contains a null byte"@,
            ErrorKind::NoCurrentDirectory => fault_about(kind, subject).text() == "cannot determine current directory: "@ + subject,
            ErrorKind::PathNotFound => fault_about(kind, subject).text() == "path does not exist or is not a regular file or directory: "@ + subject,
            ErrorKind::InvalidContext => fault_about(kind, subject).text() == "HERDR_PLUGIN_CONTEXT_JSON is invalid: "@ + subject,
            ErrorKind::ContextNotObject => fault(kind).text() == "HERDR_PLUGIN_CONTEXT_JSON must be an object"@,
            ErrorKind::MissingPaneId => fault(kind).text() == "plugin context did not include focused_pane_id"@,
            ErrorKind::MissingPaneDirectory => fault(kind).text() == "plugin context did not include focused_pane_cwd"@,
            ErrorKind::ConnectionEnded => fault(kind).text() == "connection ended before HTTP headers"@,
            ErrorKind::LineTooLarge => fault(kind).text() == "HTTP header line is too large"@,
            ErrorKind::HeadersTooLarge => fault(kind).text() == "HTTP headers are too large"@,
            ErrorKind::InvalidHeader => fault(kind).text() == "invalid HTTP header"@,
            ErrorKind::InvalidRequestLine => fault(kind).text() == "invalid HTTP request line"@,
            ErrorKind::InvalidStatusLine => fault(kind).text() == "receiver returned an invalid HTTP status line"@,
            ErrorKind::InvalidStatus => fault_about(kind, subject).text() == "receiver returned an invalid HTTP status: "@ + subject,
            ErrorKind::NoContentLength => fault(kind).text() == "receiver response did not include Content-Length"@,
            ErrorKind::InvalidContentLength => fault_about(kind, subject).text() == "receiver returned an invalid Content-Length: "@ + subject,
            ErrorKind::ResponseTooLarge => fault(kind).text() == "receiver response is too large"@,
            ErrorKind::ZeroTimeout => fault(kind).text() == "transfer timeout must be greater than zero"@,
            ErrorKind::ReceiverUnavailable => fault_about(kind, subject).text() == "local receiver is unavailable through "@ + subject
                + "; reconnect the Herdr remote session and verify its SSH RemoteForward"@,
            ErrorKind::UnexpectedService => fault_about(kind, subject).text() == "unexpected service through "@ + subject
                + "; verify the Herdr remote-download SSH RemoteForward"@,
            ErrorKind::DirectoryNameNotUtf8 => fault(kind).text() == "directory name is not valid UTF-8"@,
            ErrorKind::FilenameNotUtf8 => fault(kind).text() == "filename is not valid UTF-8"@,
            ErrorKind::NotTransferable => fault_about(kind, subject).text() == "not a regular file or directory: "@ + subject,
            ErrorKind::FileTooLarge => fault_about(kind, subject).text() == "file is larger than the "@ + subject
                + " byte transfer limit"@,
            ErrorKind::FileChanged => fault(kind).text() == "file changed while it was being transferred"@,
            ErrorKind::ReceiverRefused => fault_about(kind, subject).text() == "receiver returned HTTP "@ + subject,
            ErrorKind::InvalidResponse => fault(kind).text() == "receiver returned an invalid response"@,
            ErrorKind::NoFileChosen => fault(kind).text() == "select at least one file"@,
            ErrorKind::ChosenNotRegular => fault_about(kind, subject).text() == "selected path is not a regular file: "@ + subject,
            ErrorKind::ChosenTooLarge => fault_about(kind, subject).text() == "selected file is larger than the "@ + subject
                + " byte transfer limit"@,
            ErrorKind::ChosenNameNotUtf8 => fault(kind).text() == "selected filename is not valid UTF-8"@,
            ErrorKind::ChosenChangedInRead => fault(kind).text() == "selected file changed while it was being read"@,
            ErrorKind::ChosenChangedInTransfer => fault(kind).text() == "selected file changed while it was being transferred"@,
            ErrorKind::BatchTooLarge => fault(kind).text() == "selected files are too large to transfer as one batch"@,
            ErrorKind::CannotCreateTemporary => fault_about(kind, subject).text() == "cannot create temporary file: "@ + subject,
            ErrorKind::NoTemporaryName => fault(kind).text() == "could not allocate a temporary file"@,
            ErrorKind::CannotCommit => fault_about(kind, subject).text() == "cannot commit downloaded file: "@ + subject,
            ErrorKind::NoDestinationName => fault(kind).text() == "could not allocate a unique destination filename"@,
            ErrorKind::PickerNeedsMacOs => fault(kind).text() == "the connected file picker service must run on macOS"@,
            ErrorKind::PickerCancelled => fault(kind).text() == "file selection was cancelled"@,
            ErrorKind::PickerFailed => fault_about(kind, subject).text() == "macOS file picker failed: "@ + subject,
            ErrorKind::PickerNotUtf8 => fault_about(kind, subject).text() == "file picker returned invalid UTF-8: "@ + subject,
            ErrorKind::UnsupportedKey => fault(kind).text() == "keybinding contains unsupported characters"@,
            ErrorKind::KeyInUse => fault_about(kind, subject).text() == "keybinding is already in use: "@ + subject,
            ErrorKind::InvalidKeyPattern => fault_about(kind, subject).text() == subject,
            ErrorKind::MegabytesZero => fault(kind).text() == "--max-mb must be greater than zero"@,
            ErrorKind::MegabytesTooLarge => fault(kind).text() == "--max-mb is too large"@,
            ErrorKind::InstallNeedsUnix => fault(kind).text() == "service installation requires macOS or Linux"@,
            ErrorKind::StatusNeedsUnix => fault(kind).text() == "service status requires macOS or Linux"@,
            ErrorKind::Outside => fault_about(kind, subject).text() == subject,
        },
{
    reveal_strlit("");
    let none: Seq<char> = seq![];
    let words = kind.before();
    assert(words + none + ""@ =~= words);
    assert(words + subject + ""@ =~= words + subject);
    assert(""@ + subject + ""@ =~= subject);
}

/// A result holds what it holds: its value or its error, whichever it is.
pub proof fn law_results_hold_value_or_error(
    text: String,
    number: u64,
    error: TransferError,
)
    ensures
        text_result(Ok(text)) == Ok::<Seq<char>, Fault>(text@),
        text_result(Err(error)) == Err::<Seq<char>, Fault>(error@),
        unit_result(Ok(())) == Ok::<(), Fault>(()),
        unit_result(Err(error)) == Err::<(), Fault>(error@),
        number_result(Ok(number)) == Ok::<nat, Fault>(number as nat),
        number_result(Err(error)) == Err::<nat, Fault>(error@),
        error@.kind == error.kind,
        error@.subject == error.subject@,
{
}

} // verus!
