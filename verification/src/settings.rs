//! Where things are kept, and what the options mean.
use crate::error;
use crate::error::{ErrorKind, TransferError};
use crate::paths;
use crate::paths::{expand_home, home_dir, joined, stem_and_extension};
use crate::selection;
use crate::sender::ReceiverEndpoint;
use crate::text;
use crate::text::{chars_of, decimal_text, position_of, text_of, trimmed};
use vstd::prelude::*;

verus! {

pub const PLUGIN_ID: &'static str = "kosukeyano.remote-download";

pub const DEFAULT_PORT: u16 = 18_340;

pub const DEFAULT_MAX_BYTES: u64 = 536_870_912;

pub const DEFAULT_TIMEOUT_SECONDS: u64 = 300;

/// The number of bytes of a megabyte.
pub const MEGABYTE: u64 = 1_048_576;

// ---------------------------------------------------------------------------------------------
// Directories

/// A directory below the root that the environment names, or else below the home directory.
pub open spec fn directory_below(
    root: Option<Seq<char>>,
    name: Seq<char>,
    home: Option<Seq<char>>,
    place: Seq<char>,
) -> Result<Seq<char>, error::Fault> {
    match root {
        Some(root) => match paths::expanded(root, home) {
            Ok(root) => Ok(paths::join(root, name)),
            Err(fault) => Err(fault),
        },
        None => below_home(home, place),
    }
}

/// A place below the home directory.
pub open spec fn below_home(home: Option<Seq<char>>, place: Seq<char>) -> Result<
    Seq<char>,
    error::Fault,
> {
    match home {
        Some(home) => Ok(paths::join(home, place)),
        None => Err(error::fault(ErrorKind::HomeNotSet)),
    }
}

fn place_below_home(home: Option<&str>, place: &str) -> (r: Result<String, TransferError>)
    ensures
        error::text_result(r) == below_home(paths::text_option(home), place@),
{
    match home_dir(home) {
        Ok(home) => Ok(joined(home.as_str(), place)),
        Err(error) => Err(error),
    }
}

fn own_directory(root: Option<&str>, home: Option<&str>, place: &str) -> (r: Result<
    String,
    TransferError,
>)
    ensures
        error::text_result(r) == directory_below(
            paths::text_option(root),
            "herdr-remote-download"@,
            paths::text_option(home),
            place@,
        ),
{
    match root {
        Some(root) => match expand_home(root, home) {
            Ok(root) => Ok(joined(root.as_str(), "herdr-remote-download")),
            Err(error) => Err(error),
        },
        None => place_below_home(home, place),
    }
}

/// Where the configuration is kept.
pub open spec fn config_dir(config_home: Option<Seq<char>>, home: Option<Seq<char>>) -> Result<
    Seq<char>,
    error::Fault,
> {
    directory_below(
        config_home,
        "herdr-remote-download"@,
        home,
        ".config/herdr-remote-download"@,
    )
}

pub fn default_config_dir(config_home: Option<&str>, home: Option<&str>) -> (r: Result<
    String,
    TransferError,
>)
    ensures
        error::text_result(r) == config_dir(
            paths::text_option(config_home),
            paths::text_option(home),
        ),
{
    own_directory(config_home, home, ".config/herdr-remote-download")
}

/// Where the token is kept.
pub open spec fn token_path(config_home: Option<Seq<char>>, home: Option<Seq<char>>) -> Result<
    Seq<char>,
    error::Fault,
> {
    match config_dir(config_home, home) {
        Ok(directory) => Ok(paths::join(directory, "token"@)),
        Err(fault) => Err(fault),
    }
}

pub fn default_token_path(config_home: Option<&str>, home: Option<&str>) -> (r: Result<
    String,
    TransferError,
>)
    ensures
        error::text_result(r) == token_path(
            paths::text_option(config_home),
            paths::text_option(home),
        ),
{
    match default_config_dir(config_home, home) {
        Ok(directory) => Ok(joined(directory.as_str(), "token")),
        Err(error) => Err(error),
    }
}

/// Where the installed program is kept.
pub fn default_data_dir(data_home: Option<&str>, home: Option<&str>) -> (r: Result<
    String,
    TransferError,
>)
    ensures
        error::text_result(r) == directory_below(
            paths::text_option(data_home),
            "herdr-remote-download"@,
            paths::text_option(home),
            ".local/share/herdr-remote-download"@,
        ),
{
    own_directory(data_home, home, ".local/share/herdr-remote-download")
}

/// Where received files are saved.
pub fn default_download_dir(home: Option<&str>) -> (r: Result<String, TransferError>)
    ensures
        error::text_result(r) == below_home(paths::text_option(home), "Downloads"@),
{
    place_below_home(home, "Downloads")
}

/// Where the configuration of the session is kept.
pub fn default_herdr_config_path(home: Option<&str>) -> (r: Result<String, TransferError>)
    ensures
        error::text_result(r) == below_home(
            paths::text_option(home),
            ".config/herdr/config.toml"@,
        ),
{
    place_below_home(home, ".config/herdr/config.toml")
}

// ---------------------------------------------------------------------------------------------
// The socket

/// The remote user: the one in the environment, or else the one that the system reports.
pub open spec fn user_of(
    user: Option<Seq<char>>,
    logname: Option<Seq<char>>,
    reported: Result<Seq<char>, Seq<char>>,
) -> Result<Seq<char>, error::Fault> {
    match user {
        Some(user) => Ok(user),
        None => match logname {
            Some(user) => Ok(user),
            None => match reported {
                Ok(user) => Ok(text::trim(user)),
                Err(detail) => Err(error::fault_about(ErrorKind::UnknownUser, detail)),
            },
        },
    }
}

/// Finds the remote user's name. What the system reports counts only where the environment is
/// silent.
pub fn remote_user(user: Option<&str>, logname: Option<&str>, reported: Result<&str, &str>) -> (r:
    Result<String, TransferError>)
    ensures
        error::text_result(r) == user_of(
            paths::text_option(user),
            paths::text_option(logname),
            selection::current_of(reported),
        ),
{
    match user {
        Some(user) => Ok(user.to_owned()),
        None => match logname {
            Some(user) => Ok(user.to_owned()),
            None => match reported {
                Ok(user) => {
                    let chars = chars_of(user);
                    Ok(text_of(trimmed(&chars)))
                },
                Err(detail) => Err(
                    TransferError::about(ErrorKind::UnknownUser, detail.to_owned()),
                ),
            },
        },
    }
}

/// The socket of a user: the name must not be empty nor hold a slash or a null character.
pub open spec fn socket_path(user: Seq<char>) -> Result<Seq<char>, error::Fault> {
    if user.len() == 0 || user.contains('/') || user.contains('\0') {
        Err(error::fault(ErrorKind::UnsupportedUser))
    } else {
        Ok("/tmp/herdr-remote-download-"@ + user + ".sock"@)
    }
}

proof fn lemma_first_index_contains(s: Seq<char>, c: char)
    ensures
        text::first_index(s, c) is Some <==> s.contains(c),
{
    text::lemma_index_from(s, c, 0);
    if text::first_index(s, c) is Some {
        assert(s.contains(s[text::first_index(s, c)->0]));
    }
}

/// The socket through which the receiver is reached.
pub fn default_remote_socket_path(user: &str) -> (r: Result<String, TransferError>)
    ensures
        error::text_result(r) == socket_path(user@),
{
    let chars = chars_of(user);
    proof {
        lemma_first_index_contains(chars@, '/');
        lemma_first_index_contains(chars@, '\0');
    }
    if chars.len() == 0 || position_of(&chars, '/').is_some() || position_of(
        &chars,
        '\0',
    ).is_some() {
        return Err(TransferError::new(ErrorKind::UnsupportedUser));
    }
    let mut path = "/tmp/herdr-remote-download-".to_owned();
    path.append(user);
    path.append(".sock");
    Ok(path)
}

/// Two users have two sockets.
pub proof fn law_sockets_are_distinct(a: Seq<char>, b: Seq<char>)
    requires
        socket_path(a) is Ok,
        socket_path(b) is Ok,
        a != b,
    ensures
        socket_path(a) != socket_path(b),
{
    let front = "/tmp/herdr-remote-download-"@;
    let back = ".sock"@;
    let x = front + a + back;
    let y = front + b + back;
    if x == y {
        assert(x.len() == front.len() + a.len() + back.len());
        assert(y.len() == front.len() + b.len() + back.len());
        assert forall|i: int| 0 <= i < a.len() implies a[i] == b[i] by {
            assert(x[front.len() + i] == a[i]);
            assert(y[front.len() + i] == b[i]);
        }
        assert(a =~= b);
    }
}

// ---------------------------------------------------------------------------------------------
// The sender's token

/// What the environment says about the sender's token.
pub struct TokenPlaces<'a> {
    /// The token file that is named outright.
    pub file: Option<&'a str>,
    /// The configuration directory of the plugin.
    pub directory: Option<&'a str>,
    pub config_home: Option<&'a str>,
    pub home: Option<&'a str>,
}

/// The sender's token: the file that is named outright, the one in the plugin's directory if it
/// exists, or the default one.
pub open spec fn sender_token(
    file: Option<Seq<char>>,
    directory: Option<Seq<char>>,
    config_home: Option<Seq<char>>,
    home: Option<Seq<char>>,
    exists_there: bool,
) -> Result<Seq<char>, error::Fault> {
    match file {
        Some(file) => paths::expanded(file, home),
        None => match directory {
            Some(directory) => if exists_there {
                Ok(paths::join(directory, "token"@))
            } else {
                token_path(config_home, home)
            },
            None => token_path(config_home, home),
        },
    }
}

/// Finds the sender's token file, asking whether the one in the plugin's directory exists.
pub fn sender_token_path<F: Fn(&str) -> bool>(places: &TokenPlaces, probe: &F) -> (r: Result<
    String,
    TransferError,
>)
    requires
        forall|text: &str| call_requires(*probe, (text,)),
    ensures
        exists|there: bool| #[trigger]
            is_token_answer(*probe, places.file is None, paths::text_option(places.directory), there)
                && error::text_result(r) == sender_token(
                paths::text_option(places.file),
                paths::text_option(places.directory),
                paths::text_option(places.config_home),
                paths::text_option(places.home),
                there,
            ),
{
    match places.file {
        Some(file) => {
            assert(is_token_answer(
                *probe,
                places.file is None,
                paths::text_option(places.directory),
                false,
            ));
            return expand_home(file, places.home);
        },
        None => {},
    }
    match places.directory {
        Some(directory) => {
            let path = joined(directory, "token");
            let text = path.as_str();
            let there = probe(text);
            proof {
                assert(selection::answered(*probe, path@, there)) by {
                    assert(text@ == path@);
                }
                assert(is_token_answer(
                    *probe,
                    places.file is None,
                    paths::text_option(places.directory),
                    there,
                ));
            }
            if there {
                return Ok(path);
            }
        },
        None => {
            assert(is_token_answer(
                *probe,
                places.file is None,
                paths::text_option(places.directory),
                false,
            ));
        },
    }
    default_token_path(places.config_home, places.home)
}

/// An answer about the token in the plugin's directory: it is asked for only where no file is named
/// outright and there is such a directory.
pub open spec fn is_token_answer<F: Fn(&str) -> bool>(
    probe: F,
    asked: bool,
    directory: Option<Seq<char>>,
    there: bool,
) -> bool {
    match directory {
        Some(directory) => asked ==> selection::answered(
            probe,
            paths::join(directory, "token"@),
            there,
        ),
        None => true,
    }
}

// ---------------------------------------------------------------------------------------------
// Options

pub fn default_max_megabytes() -> (r: u64)
    ensures
        r == DEFAULT_MAX_BYTES / MEGABYTE,
{
    DEFAULT_MAX_BYTES / MEGABYTE
}

/// The number of bytes of so many megabytes.
pub open spec fn megabytes(value: nat) -> Result<nat, error::Fault> {
    if value == 0 {
        Err(error::fault(ErrorKind::MegabytesZero))
    } else if value * MEGABYTE > u64::MAX {
        Err(error::fault(ErrorKind::MegabytesTooLarge))
    } else {
        Ok((value * MEGABYTE) as nat)
    }
}

pub fn bytes_from_megabytes(value: u64) -> (r: Result<u64, TransferError>)
    ensures
        error::number_result(r) == megabytes(value as nat),
{
    if value == 0 {
        return Err(TransferError::new(ErrorKind::MegabytesZero));
    }
    match value.checked_mul(MEGABYTE) {
        Some(bytes) => Ok(bytes),
        None => Err(TransferError::new(ErrorKind::MegabytesTooLarge)),
    }
}

/// The default limit is a whole number of megabytes.
pub proof fn law_default_limit_is_whole()
    ensures
        megabytes((DEFAULT_MAX_BYTES / MEGABYTE) as nat) == Ok::<nat, error::Fault>(
            DEFAULT_MAX_BYTES as nat,
        ),
{
}

/// Where the receiver is reached from a plugin action: through the given socket, or else through
/// that of the user.
pub fn endpoint_for_context(socket: Option<&str>, user: &str) -> (r: Result<
    ReceiverEndpoint,
    TransferError,
>)
    ensures
        match socket {
            Some(path) => r matches Ok(ReceiverEndpoint::Unix(chosen)) && chosen@ == path@,
            None => match r {
                Ok(ReceiverEndpoint::Unix(path)) => socket_path(user@) == Ok::<
                    Seq<char>,
                    error::Fault,
                >(path@),
                Ok(ReceiverEndpoint::Tcp { .. }) => false,
                Err(error) => socket_path(user@) == Err::<Seq<char>, error::Fault>(error@),
            },
        },
{
    match socket {
        Some(path) => Ok(ReceiverEndpoint::Unix(path.to_owned())),
        None => match default_remote_socket_path(user) {
            Ok(path) => Ok(ReceiverEndpoint::Unix(path)),
            Err(error) => Err(error),
        },
    }
}

/// Where the receiver is reached for an explicit path: through the given socket, or else at the
/// host and port.
pub fn endpoint_for_send(host: &str, port: u16, socket: Option<&str>) -> (r: ReceiverEndpoint)
    ensures
        match socket {
            Some(path) => r matches ReceiverEndpoint::Unix(chosen) && chosen@ == path@,
            None => r matches ReceiverEndpoint::Tcp { host: chosen, port: number } && chosen@
                == host@ && number == port,
        },
{
    match socket {
        Some(path) => ReceiverEndpoint::Unix(path.to_owned()),
        None => ReceiverEndpoint::Tcp { host: host.to_owned(), port },
    }
}

// ---------------------------------------------------------------------------------------------
// Names of files that are rewritten

/// The name under which a configuration is kept before it is first changed.
pub open spec fn backup_name(name: Option<Seq<char>>) -> Seq<char> {
    let kept = match name {
        Some(name) => name,
        None => "config.toml"@,
    };
    kept + ".before-herdr-remote-download.bak"@
}

pub fn backup_file_name(name: Option<&str>) -> (r: String)
    ensures
        r@ == backup_name(paths::text_option(name)),
{
    let mut backup = match name {
        Some(name) => name.to_owned(),
        None => "config.toml".to_owned(),
    };
    backup.append(".before-herdr-remote-download.bak");
    backup
}

/// The name under which a changed configuration is written before it replaces the old one.
pub open spec fn temporary_config(name: Seq<char>, process: nat) -> Seq<char> {
    paths::name_stem(name) + ".toml.tmp-"@ + text::decimal(process)
}

pub fn temporary_config_name(name: &str, process: u32) -> (r: String)
    ensures
        r@ == temporary_config(name@, process as nat),
{
    let chars = chars_of(name);
    let (stem, _) = stem_and_extension(&chars);
    let mut temporary = text_of(stem);
    temporary.append(".toml.tmp-");
    let number = decimal_text(process as u128);
    temporary.append(number.as_str());
    temporary
}

// ---------------------------------------------------------------------------------------------
// Laws

/// A limit in megabytes is that many times 1,048,576 bytes; none is no limit, and a limit that no
/// number of bytes can express is refused.
pub proof fn law_megabytes_are_counted(value: nat)
    ensures
        0 < value <= 17_592_186_044_415 ==> megabytes(value) == Ok::<nat, error::Fault>(
            value * 1_048_576,
        ),
        value > 17_592_186_044_415 ==> megabytes(value) == Err::<nat, error::Fault>(
            error::fault(ErrorKind::MegabytesTooLarge),
        ),
        megabytes(0) == Err::<nat, error::Fault>(error::fault(ErrorKind::MegabytesZero)),
        megabytes(512) == Ok::<nat, error::Fault>(DEFAULT_MAX_BYTES as nat),
{
}

/// A base that is absolute and does not end with a slash.
pub open spec fn is_plain_base(base: Seq<char>) -> bool {
    base.len() > 0 && base[0] == '/' && base.last() != '/'
}

/// The configuration and the token are below the directory that the environment names for them, and
/// otherwise below the home directory, without which there is no place for them.
pub proof fn law_configuration_is_below_its_base(base: Seq<char>, home: Option<Seq<char>>)
    requires
        is_plain_base(base),
    ensures
        config_dir(Some(base), home) == Ok::<Seq<char>, error::Fault>(
            base + "/herdr-remote-download"@,
        ),
        token_path(Some(base), home) == Ok::<Seq<char>, error::Fault>(
            base + "/herdr-remote-download/token"@,
        ),
        config_dir(None, Some(base)) == Ok::<Seq<char>, error::Fault>(
            base + "/.config/herdr-remote-download"@,
        ),
        token_path(None, Some(base)) == Ok::<Seq<char>, error::Fault>(
            base + "/.config/herdr-remote-download/token"@,
        ),
        config_dir(None, None) == Err::<Seq<char>, error::Fault>(
            error::fault(ErrorKind::HomeNotSet),
        ),
        token_path(None, None) == Err::<Seq<char>, error::Fault>(
            error::fault(ErrorKind::HomeNotSet),
        ),
        config_dir(Some("~"@), Some(base)) == Ok::<Seq<char>, error::Fault>(
            base + "/herdr-remote-download"@,
        ),
        config_dir(Some("~"@), None) == Err::<Seq<char>, error::Fault>(
            error::fault(ErrorKind::HomeNotSet),
        ),
{
    reveal_strlit("/");
    reveal_strlit("~");
    reveal_strlit("~/");
    reveal_strlit("token");
    reveal_strlit("herdr-remote-download");
    reveal_strlit("/herdr-remote-download");
    reveal_strlit("/herdr-remote-download/token");
    reveal_strlit(".config/herdr-remote-download");
    reveal_strlit("/.config/herdr-remote-download");
    reveal_strlit("/.config/herdr-remote-download/token");
    paths::law_tilde_means_home(seq![], base, base);
    match home {
        Some(home) => {
            paths::law_tilde_means_home(seq![], base, home);
        },
        None => {},
    }
    let own = "herdr-remote-download"@;
    let place = ".config/herdr-remote-download"@;
    let first = base + "/herdr-remote-download"@;
    let second = base + "/.config/herdr-remote-download"@;
    paths::law_relative_paths_go_below_their_base(base, own);
    paths::law_relative_paths_go_below_their_base(base, place);
    assert(base + "/"@ + own =~= first);
    assert(base + "/"@ + place =~= second);
    assert(first.last() == 'd' && second.last() == 'd');
    paths::law_relative_paths_go_below_their_base(first, "token"@);
    paths::law_relative_paths_go_below_their_base(second, "token"@);
    assert(first + "/"@ + "token"@ =~= base + "/herdr-remote-download/token"@);
    assert(second + "/"@ + "token"@ =~= base + "/.config/herdr-remote-download/token"@);
}

/// What is kept below the home directory is at its place there, and has none without a home
/// directory; a directory of one's own is below its root where the environment names one.
pub proof fn law_places_are_below_home(
    home: Seq<char>,
    place: Seq<char>,
    root: Seq<char>,
    name: Seq<char>,
)
    requires
        is_plain_base(home),
        is_plain_base(root),
        place.len() > 0,
        place[0] != '/',
        name.len() > 0,
        name[0] != '/',
    ensures
        below_home(Some(home), place) == Ok::<Seq<char>, error::Fault>(home + "/"@ + place),
        below_home(None, place) == Err::<Seq<char>, error::Fault>(
            error::fault(ErrorKind::HomeNotSet),
        ),
        directory_below(None, name, Some(home), place) == Ok::<Seq<char>, error::Fault>(
            home + "/"@ + place,
        ),
        directory_below(Some(root), name, Some(home), place) == Ok::<Seq<char>, error::Fault>(
            root + "/"@ + name,
        ),
        directory_below(Some(root), name, None, place) == Ok::<Seq<char>, error::Fault>(
            root + "/"@ + name,
        ),
{
    paths::law_tilde_means_home(seq![], root, home);
    paths::law_relative_paths_go_below_their_base(home, place);
    paths::law_relative_paths_go_below_their_base(root, name);
}

/// The user in the environment counts first, then the login name, and what the system reports only
/// where neither is given.
pub proof fn law_environment_names_the_user(
    user: Seq<char>,
    logname: Option<Seq<char>>,
    reported: Result<Seq<char>, Seq<char>>,
    blank: Seq<char>,
)
    requires
        text::all_in(blank, |c: char| text::is_space(c)),
        user.len() > 0 ==> !text::is_space(user[0]) && !text::is_space(user.last()),
    ensures
        user_of(Some(user), logname, reported) == Ok::<Seq<char>, error::Fault>(user),
        user_of(None, Some(user), reported) == Ok::<Seq<char>, error::Fault>(user),
        user_of(None, None, Ok(user + blank)) == Ok::<Seq<char>, error::Fault>(user),
        user_of(None, None, Err(user)) == Err::<Seq<char>, error::Fault>(
            error::fault_about(ErrorKind::UnknownUser, user),
        ),
{
    let none: Seq<char> = seq![];
    text::law_trim_takes_off_white_space_only(none, user, blank);
    assert(none + user + blank =~= user + blank);
}

/// The socket of a user is named after them; a name that cannot stand in the name of a file has
/// none.
pub proof fn law_sockets_are_named_after_users(user: Seq<char>)
    ensures
        ({
            let fits = user.len() > 0 && (forall|i: int|
                0 <= i < user.len() ==> #[trigger] user[i] != '/' && user[i] != '\0');
            &&& fits ==> socket_path(user) == Ok::<Seq<char>, error::Fault>(
                "/tmp/herdr-remote-download-"@ + user + ".sock"@,
            )
            &&& !fits ==> socket_path(user) == Err::<Seq<char>, error::Fault>(
                error::fault(ErrorKind::UnsupportedUser),
            )
        }),
{
    if user.contains('/') {
        let i = user.index_of('/');
        assert(user[i] == '/');
    }
    if user.contains('\0') {
        let i = user.index_of('\0');
        assert(user[i] == '\0');
    }
    if exists|i: int| 0 <= i < user.len() && (#[trigger] user[i] == '/' || user[i] == '\0') {
        let i = choose|i: int|
            0 <= i < user.len() && (#[trigger] user[i] == '/' || user[i] == '\0');
        assert(user.contains(user[i]));
    }
}

/// A token file that is named outright is taken; otherwise the one in the plugin's directory where
/// it exists, and the default one where it does not.
pub proof fn law_named_token_file_is_taken(
    file: Seq<char>,
    directory: Seq<char>,
    config_home: Option<Seq<char>>,
    home: Option<Seq<char>>,
    there: bool,
)
    requires
        is_plain_base(file),
        is_plain_base(directory),
    ensures
        sender_token(Some(file), None, config_home, home, there) == Ok::<Seq<char>, error::Fault>(
            file,
        ),
        sender_token(Some(file), Some(directory), config_home, home, there) == Ok::<
            Seq<char>,
            error::Fault,
        >(file),
        sender_token(None, Some(directory), config_home, home, true) == Ok::<
            Seq<char>,
            error::Fault,
        >(directory + "/token"@),
        sender_token(None, Some(directory), Some(file), home, false) == Ok::<
            Seq<char>,
            error::Fault,
        >(file + "/herdr-remote-download/token"@),
        sender_token(None, None, Some(file), home, there) == Ok::<Seq<char>, error::Fault>(
            file + "/herdr-remote-download/token"@,
        ),
{
    reveal_strlit("/");
    reveal_strlit("token");
    reveal_strlit("/token");
    match home {
        Some(home) => {
            paths::law_tilde_means_home(seq![], file, home);
        },
        None => {
            paths::law_tilde_means_home(seq![], file, file);
        },
    }
    paths::law_relative_paths_go_below_their_base(directory, "token"@);
    assert(directory + "/"@ + "token"@ =~= directory + "/token"@);
    law_configuration_is_below_its_base(file, home);
}

/// A configuration is kept under its own name with an ending, and rewritten under a name that
/// differs from process to process.
pub proof fn law_kept_and_temporary_names_differ(name: Seq<char>, stem: Seq<char>, process: nat)
    requires
        stem.len() > 0,
    ensures
        backup_name(Some(name)) == name + ".before-herdr-remote-download.bak"@,
        backup_name(None) == "config.toml.before-herdr-remote-download.bak"@,
        temporary_config(stem + ".toml"@, process) == stem + ".toml.tmp-"@ + text::decimal(process),
{
    reveal_strlit("config.toml");
    reveal_strlit(".before-herdr-remote-download.bak");
    reveal_strlit("config.toml.before-herdr-remote-download.bak");
    reveal_strlit(".toml");
    reveal_strlit("toml");
    reveal_strlit(".");
    assert("config.toml"@ + ".before-herdr-remote-download.bak"@
        =~= "config.toml.before-herdr-remote-download.bak"@);
    assert("toml"@ =~= seq!['t', 'o', 'm', 'l']);
    assert(!"toml"@.contains('.'));
    assert(stem + "."@ + "toml"@ =~= stem + ".toml"@);
    paths::law_names_are_divided_at_their_last_dot(stem, "toml"@);
}

} // verus!
