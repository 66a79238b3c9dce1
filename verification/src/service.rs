//! The receiver as a service of the system.
use crate::error;
use crate::error::{ErrorKind, TransferError};
use crate::http;
use crate::paths;
use crate::paths::joined;
use crate::text;
use crate::text::{chars_of, decimal_text, same_text, text_of, trimmed};
use vstd::prelude::*;

verus! {

pub const LAUNCHD_LABEL: &'static str = "com.kosukeyano.herdr-remote-download";

// ---------------------------------------------------------------------------------------------
// Escaping

/// How a character is written in XML.
pub open spec fn xml_char(c: char) -> Seq<char> {
    if c == '&' {
        "&amp;"@
    } else if c == '<' {
        "&lt;"@
    } else if c == '>' {
        "&gt;"@
    } else if c == '"' {
        "&quot;"@
    } else if c == '\'' {
        "&apos;"@
    } else {
        seq![c]
    }
}

/// How a text is written in XML.
pub open spec fn xml_text(s: Seq<char>) -> Seq<char>
    decreases s.len(),
{
    if s.len() == 0 {
        seq![]
    } else {
        xml_text(s.drop_last()) + xml_char(s.last())
    }
}

/// Escapes a text for XML.
pub fn xml_escape(value: &str) -> (r: String)
    ensures
        r@ == xml_text(value@),
{
    let chars = chars_of(value);
    let mut out = String::new();
    let mut i: usize = 0;
    assert(chars@.take(0) =~= seq![]);
    while i < chars.len()
        invariant
            i <= chars@.len(),
            out@ == xml_text(chars@.take(i as int)),
        decreases chars@.len() - i,
    {
        proof {
            assert(chars@.take(i + 1).drop_last() =~= chars@.take(i as int));
            assert(chars@.take(i + 1).last() == chars@[i as int]);
        }
        let c = chars[i];
        let ghost before = out@;
        if c == '&' {
            out.append("&amp;");
        } else if c == '<' {
            out.append("&lt;");
        } else if c == '>' {
            out.append("&gt;");
        } else if c == '"' {
            out.append("&quot;");
        } else if c == '\'' {
            out.append("&apos;");
        } else {
            out.push(c);
        }
        assert(out@ =~= before + xml_char(c));
        i += 1;
    }
    assert(chars@.take(i as int) =~= chars@);
    out
}

/// An escaped text holds no markup.
pub proof fn law_escaped_text_holds_no_markup(s: Seq<char>)
    ensures
        !xml_text(s).contains('<'),
        !xml_text(s).contains('>'),
        !xml_text(s).contains('"'),
        !xml_text(s).contains('\''),
    decreases s.len(),
{
    if s.len() > 0 {
        law_escaped_text_holds_no_markup(s.drop_last());
        lemma_xml_entities();
        let front = xml_text(s.drop_last());
        let back = xml_char(s.last());
        assert forall|i: int| 0 <= i < xml_text(s).len() implies ({
            let c = #[trigger] xml_text(s)[i];
            c != '<' && c != '>' && c != '"' && c != '\''
        }) by {
            if i < front.len() {
                assert(front.contains(front[i]));
            } else {
                assert(xml_text(s)[i] == back[i - front.len()]);
            }
        }
    }
}

/// An escaped text begins with its first character, escaped.
proof fn lemma_xml_first(s: Seq<char>)
    requires
        s.len() > 0,
    ensures
        xml_text(s) == xml_char(s[0]) + xml_text(s.skip(1)),
    decreases s.len(),
{
    if s.len() == 1 {
        assert(s.drop_last() =~= seq![]);
        assert(s.skip(1) =~= seq![]);
        assert(xml_text(s) =~= xml_char(s[0]) + xml_text(s.skip(1)));
    } else {
        lemma_xml_first(s.drop_last());
        assert(s.drop_last().skip(1) =~= s.skip(1).drop_last());
        assert(xml_text(s) =~= xml_char(s[0]) + xml_text(s.skip(1)));
    }
}

/// Escaping loses nothing: different texts are written differently.
pub proof fn law_escaping_is_injective(a: Seq<char>, b: Seq<char>)
    requires
        xml_text(a) == xml_text(b),
    ensures
        a == b,
    decreases a.len(),
{
    lemma_xml_entities();
    if a.len() > 0 {
        lemma_xml_first(a);
    }
    if b.len() > 0 {
        lemma_xml_first(b);
    }
    if a.len() == 0 || b.len() == 0 {
        assert(a =~= b);
    } else {
        let t = xml_text(a);
        let x = xml_char(a[0]);
        let y = xml_char(b[0]);
        assert(t[0] == x[0] && t[0] == y[0]);
        if t[0] == '&' {
            assert(t[1] == x[1] && t[1] == y[1]);
            assert(t[2] == x[2] && t[2] == y[2]);
        }
        assert(a[0] == b[0]);
        assert(t.skip(x.len() as int) =~= xml_text(a.skip(1)));
        assert(t.skip(y.len() as int) =~= xml_text(b.skip(1)));
        law_escaping_is_injective(a.skip(1), b.skip(1));
        assert(a =~= seq![a[0]] + a.skip(1));
        assert(b =~= seq![b[0]] + b.skip(1));
    }
}

proof fn lemma_xml_entities()
    ensures
        "&amp;"@ =~= seq!['&', 'a', 'm', 'p', ';'],
        "&lt;"@ =~= seq!['&', 'l', 't', ';'],
        "&gt;"@ =~= seq!['&', 'g', 't', ';'],
        "&quot;"@ =~= seq!['&', 'q', 'u', 'o', 't', ';'],
        "&apos;"@ =~= seq!['&', 'a', 'p', 'o', 's', ';'],
{
    reveal_strlit("&amp;");
    reveal_strlit("&lt;");
    reveal_strlit("&gt;");
    reveal_strlit("&quot;");
    reveal_strlit("&apos;");
}

// ---------------------------------------------------------------------------------------------
// launchd

/// One argument of the service's program.
pub open spec fn argument_line(argument: Seq<char>) -> Seq<char> {
    "      <string>"@ + xml_text(argument) + "</string>"@
}

/// The arguments of the service's program, one on each line.
pub open spec fn argument_lines(arguments: Seq<Seq<char>>) -> Seq<char>
    decreases arguments.len(),
{
    if arguments.len() == 0 {
        seq![]
    } else if arguments.len() == 1 {
        argument_line(arguments[0])
    } else {
        argument_lines(arguments.drop_last()) + "\n"@ + argument_line(arguments.last())
    }
}

/// The program that the service runs, and what it is told: to listen on this machine only.
pub open spec fn service_arguments(
    binary: Seq<char>,
    token_path: Seq<char>,
    download_dir: Seq<char>,
    port: nat,
) -> Seq<Seq<char>> {
    seq![
        binary,
        "serve"@,
        "--host"@,
        "127.0.0.1"@,
        "--port"@,
        text::decimal(port),
        "--download-dir"@,
        download_dir,
        "--token-file"@,
        token_path,
    ]
}

/// The property list of the service.
pub open spec fn plist_text(arguments: Seq<Seq<char>>, log: Seq<char>) -> Seq<char> {
    "<?xml version=\"1.0\" encoding=\"UTF-8\"?>\n<!DOCTYPE plist PUBLIC \"-//Apple//DTD PLIST 1.0//EN\" \"http://www.apple.com/DTDs/PropertyList-1.0.dtd\">\n<plist version=\"1.0\">\n<dict>\n  <key>Label</key>\n  <string>"@
        + LAUNCHD_LABEL@ + "</string>\n  <key>ProgramArguments</key>\n  <array>\n"@
        + argument_lines(arguments)
        + "\n  </array>\n  <key>RunAtLoad</key>\n  <true/>\n  <key>KeepAlive</key>\n  <true/>\n  <key>ProcessType</key>\n  <string>Interactive</string>\n  <key>StandardOutPath</key>\n  <string>"@
        + xml_text(log) + "</string>\n  <key>StandardErrorPath</key>\n  <string>"@ + xml_text(log)
        + "</string>\n</dict>\n</plist>\n"@
}

fn arguments_text(arguments: &Vec<String>) -> (r: String)
    ensures
        r@ == argument_lines(crate::http::texts_of(arguments@)),
{
    let ghost all = crate::http::texts_of(arguments@);
    let mut out = String::new();
    let mut i: usize = 0;
    assert(all.take(0) =~= seq![]);
    while i < arguments.len()
        invariant
            i <= arguments@.len(),
            all == crate::http::texts_of(arguments@),
            out@ == argument_lines(all.take(i as int)),
        decreases arguments@.len() - i,
    {
        let ghost before = out@;
        proof {
            assert(all.take(i + 1).drop_last() =~= all.take(i as int));
            assert(all.take(i + 1).last() == arguments@[i as int]@);
        }
        if i > 0 {
            out.append("\n");
        }
        out.append("      <string>");
        let escaped = xml_escape(arguments[i].as_str());
        out.append(escaped.as_str());
        out.append("</string>");
        proof {
            let line = argument_line(arguments@[i as int]@);
            if i == 0 {
                assert(before =~= seq![]);
                assert(out@ =~= line);
            } else {
                assert(out@ =~= before + "\n"@ + line);
            }
        }
        i += 1;
    }
    assert(all.take(i as int) =~= all);
    out
}

/// Writes the property list of the service.
pub fn launchd_plist(
    binary: &str,
    token_path: &str,
    download_dir: &str,
    port: u16,
    log_path: &str,
) -> (r: String)
    ensures
        r@ == plist_text(
            service_arguments(binary@, token_path@, download_dir@, port as nat),
            log_path@,
        ),
{
    let mut arguments: Vec<String> = Vec::new();
    arguments.push(binary.to_owned());
    arguments.push("serve".to_owned());
    arguments.push("--host".to_owned());
    arguments.push("127.0.0.1".to_owned());
    arguments.push("--port".to_owned());
    arguments.push(decimal_text(port as u128));
    arguments.push("--download-dir".to_owned());
    arguments.push(download_dir.to_owned());
    arguments.push("--token-file".to_owned());
    arguments.push(token_path.to_owned());
    assert(crate::http::texts_of(arguments@) =~= service_arguments(
        binary@,
        token_path@,
        download_dir@,
        port as nat,
    ));
    let lines = arguments_text(&arguments);
    let log = xml_escape(log_path);
    let mut plist = "<?xml version=\"1.0\" encoding=\"UTF-8\"?>\n<!DOCTYPE plist PUBLIC \"-//Apple//DTD PLIST 1.0//EN\" \"http://www.apple.com/DTDs/PropertyList-1.0.dtd\">\n<plist version=\"1.0\">\n<dict>\n  <key>Label</key>\n  <string>".to_owned();
    plist.append(LAUNCHD_LABEL);
    plist.append("</string>\n  <key>ProgramArguments</key>\n  <array>\n");
    plist.append(lines.as_str());
    plist.append(
        "\n  </array>\n  <key>RunAtLoad</key>\n  <true/>\n  <key>KeepAlive</key>\n  <true/>\n  <key>ProcessType</key>\n  <string>Interactive</string>\n  <key>StandardOutPath</key>\n  <string>",
    );
    plist.append(log.as_str());
    plist.append("</string>\n  <key>StandardErrorPath</key>\n  <string>");
    plist.append(log.as_str());
    plist.append("</string>\n</dict>\n</plist>\n");
    plist
}

// ---------------------------------------------------------------------------------------------
// systemd

/// The unit of the service.
pub open spec fn unit_text(
    binary: Seq<char>,
    token_path: Seq<char>,
    download_dir: Seq<char>,
    port: nat,
) -> Seq<char> {
    "[Unit]\nDescription=Herdr remote download receiver\n\n[Service]\nExecStart="@ + binary
        + " serve --host 127.0.0.1 --port "@ + text::decimal(port) + " --download-dir "@
        + download_dir + " --token-file "@ + token_path
        + "\nRestart=always\n\n[Install]\nWantedBy=default.target\n"@
}

/// Writes the unit of the service.
pub fn systemd_unit(binary: &str, token_path: &str, download_dir: &str, port: u16) -> (r: String)
    ensures
        r@ == unit_text(binary@, token_path@, download_dir@, port as nat),
{
    let mut unit = "[Unit]\nDescription=Herdr remote download receiver\n\n[Service]\nExecStart=".to_owned();
    unit.append(binary);
    unit.append(" serve --host 127.0.0.1 --port ");
    let number = decimal_text(port as u128);
    unit.append(number.as_str());
    unit.append(" --download-dir ");
    unit.append(download_dir);
    unit.append(" --token-file ");
    unit.append(token_path);
    unit.append("\nRestart=always\n\n[Install]\nWantedBy=default.target\n");
    unit
}

// ---------------------------------------------------------------------------------------------
// Which service, and where

/// The kinds of services.
#[derive(Clone, Copy, Debug, PartialEq, Eq, Structural)]
pub enum ServiceKind {
    Launchd,
    Systemd,
}

/// The kind of services that a system has.
pub open spec fn service_of(os: Seq<char>) -> Option<ServiceKind> {
    if os == "macos"@ {
        Some(ServiceKind::Launchd)
    } else if os == "linux"@ {
        Some(ServiceKind::Systemd)
    } else {
        None
    }
}

/// What a service is asked for.
#[derive(Clone, Copy, Debug, PartialEq, Eq, Structural)]
pub enum ServiceTask {
    Install,
    Status,
}

/// The fault when a system has no services.
pub open spec fn service_fault(task: ServiceTask) -> error::Fault {
    match task {
        ServiceTask::Install => error::fault(ErrorKind::InstallNeedsUnix),
        ServiceTask::Status => error::fault(ErrorKind::StatusNeedsUnix),
    }
}

/// Finds the kind of services of a system.
pub fn service_kind(os: &str, task: ServiceTask) -> (r: Result<ServiceKind, TransferError>)
    ensures
        match r {
            Ok(kind) => service_of(os@) == Some(kind),
            Err(error) => service_of(os@) is None && error@ == service_fault(task),
        },
{
    if same_text(os, "macos") {
        Ok(ServiceKind::Launchd)
    } else if same_text(os, "linux") {
        Ok(ServiceKind::Systemd)
    } else {
        match task {
            ServiceTask::Install => Err(TransferError::new(ErrorKind::InstallNeedsUnix)),
            ServiceTask::Status => Err(TransferError::new(ErrorKind::StatusNeedsUnix)),
        }
    }
}

/// The file name of the unit.
pub open spec fn unit_name() -> Seq<char> {
    LAUNCHD_LABEL@ + ".service"@
}

pub fn unit_file_name() -> (r: String)
    ensures
        r@ == unit_name(),
{
    let mut name = LAUNCHD_LABEL.to_owned();
    name.append(".service");
    name
}

/// Where the unit is kept.
pub fn unit_path(home: &str) -> (r: String)
    ensures
        r@ == paths::join(paths::join(home@, ".config/systemd/user"@), unit_name()),
{
    let directory = joined(home, ".config/systemd/user");
    let name = unit_file_name();
    joined(directory.as_str(), name.as_str())
}

/// Where the property list is kept.
pub fn plist_path(home: &str) -> (r: String)
    ensures
        r@ == paths::join(home@, "Library/LaunchAgents/"@ + LAUNCHD_LABEL@ + ".plist"@),
{
    let mut place = "Library/LaunchAgents/".to_owned();
    place.append(LAUNCHD_LABEL);
    place.append(".plist");
    joined(home, place.as_str())
}

/// Where the service writes its log.
pub fn log_path(home: &str) -> (r: String)
    ensures
        r@ == paths::join(home@, "Library/Logs/herdr-remote-download.log"@),
{
    joined(home, "Library/Logs/herdr-remote-download.log")
}

/// The name under which a file is written before it replaces the old one.
pub fn temporary_path(path: &str, process: u32) -> (r: String)
    ensures
        r@ == path@ + ".tmp-"@ + text::decimal(process as nat),
{
    let mut temporary = path.to_owned();
    temporary.append(".tmp-");
    let number = decimal_text(process as u128);
    temporary.append(number.as_str());
    temporary
}

/// The name under which the program is copied before it replaces the old one.
pub fn temporary_binary_name(process: u32) -> (r: String)
    ensures
        r@ == ".herdr-remote-download-install-"@ + text::decimal(process as nat),
{
    let mut name = ".herdr-remote-download-install-".to_owned();
    let number = decimal_text(process as u128);
    name.append(number.as_str());
    name
}

/// The launchd domain of a user.
pub open spec fn domain_of(uid: Seq<char>) -> Seq<char> {
    "gui/"@ + uid
}

pub fn launchd_domain(uid: &str) -> (r: String)
    ensures
        r@ == domain_of(uid@),
{
    let mut domain = "gui/".to_owned();
    domain.append(uid);
    domain
}

/// The launchd name of the service of a user.
pub fn launchd_service(uid: &str) -> (r: String)
    ensures
        r@ == domain_of(uid@) + "/"@ + LAUNCHD_LABEL@,
{
    let mut service = launchd_domain(uid);
    service.append("/");
    service.append(LAUNCHD_LABEL);
    service
}

/// The command that succeeds exactly where the service runs: its program and its arguments. Only
/// launchd needs the number of the user.
pub open spec fn status_words(kind: ServiceKind, uid: Seq<char>) -> Seq<Seq<char>> {
    match kind {
        ServiceKind::Launchd => seq![
            "/bin/launchctl"@,
            "print"@,
            domain_of(uid) + "/"@ + LAUNCHD_LABEL@,
        ],
        ServiceKind::Systemd => seq![
            "systemctl"@,
            "--user"@,
            "is-active"@,
            "--quiet"@,
            unit_name(),
        ],
    }
}

pub fn status_command(kind: ServiceKind, uid: &str) -> (r: Vec<String>)
    ensures
        http::texts_of(r@) == status_words(kind, uid@),
{
    let mut words: Vec<String> = Vec::new();
    match kind {
        ServiceKind::Launchd => {
            words.push("/bin/launchctl".to_owned());
            words.push("print".to_owned());
            words.push(launchd_service(uid));
        },
        ServiceKind::Systemd => {
            words.push("systemctl".to_owned());
            words.push("--user".to_owned());
            words.push("is-active".to_owned());
            words.push("--quiet".to_owned());
            words.push(unit_file_name());
        },
    }
    assert(http::texts_of(words@) =~= status_words(kind, uid@));
    words
}

/// What a failed command said: what it wrote to its error output, or else to its output.
pub open spec fn said(stdout: Seq<char>, stderr: Seq<char>) -> Seq<char> {
    text::trim(
        if stderr.len() == 0 {
            stdout
        } else {
            stderr
        },
    )
}

pub fn command_detail(stdout: &str, stderr: &str) -> (r: String)
    ensures
        r@ == said(stdout@, stderr@),
{
    let chars = if stderr.is_empty() {
        chars_of(stdout)
    } else {
        chars_of(stderr)
    };
    text_of(trimmed(&chars))
}

// ---------------------------------------------------------------------------------------------
// Laws

/// Text that stands between two others stands in the whole.
proof fn lemma_middle(front: Seq<char>, middle: Seq<char>, back: Seq<char>)
    ensures
        text::has_text(front + middle + back, middle),
{
    let whole = front + middle + back;
    let at = front.len() as int;
    assert(whole.subrange(at, at + middle.len()) =~= middle);
    assert(text::occurs_at(whole, middle, at));
}

/// The installed service listens on this machine only, whichever system runs it.
pub proof fn law_service_listens_on_this_machine_only(
    binary: Seq<char>,
    token_path: Seq<char>,
    download_dir: Seq<char>,
    port: nat,
    log: Seq<char>,
)
    ensures
        text::has_text(
            plist_text(service_arguments(binary, token_path, download_dir, port), log),
            argument_line("--host"@) + "\n"@ + argument_line("127.0.0.1"@),
        ),
        text::has_text(
            unit_text(binary, token_path, download_dir, port),
            " serve --host 127.0.0.1 --port "@,
        ),
{
    let arguments = service_arguments(binary, token_path, download_dir, port);
    let host = argument_line("--host"@) + "\n"@ + argument_line("127.0.0.1"@);
    lemma_argument_pair(arguments, 2);
    let at = choose|at: int| text::occurs_at(argument_lines(arguments), host, at);
    let lines = argument_lines(arguments);
    let plist = plist_text(arguments, log);
    lemma_plist_holds_arguments(arguments, log);
    let start = choose|start: int| text::occurs_at(plist, lines, start);
    assert(plist.subrange(start, start + lines.len()) == lines);
    assert(plist.subrange(start + at, start + at + host.len()) =~= plist.subrange(
        start,
        start + lines.len(),
    ).subrange(at, at + host.len()));
    assert(text::occurs_at(plist, host, start + at));
    let serve = " serve --host 127.0.0.1 --port "@;
    let before = "[Unit]\nDescription=Herdr remote download receiver\n\n[Service]\nExecStart="@
        + binary;
    let after = text::decimal(port) + " --download-dir "@ + download_dir + " --token-file "@
        + token_path + "\nRestart=always\n\n[Install]\nWantedBy=default.target\n"@;
    assert(unit_text(binary, token_path, download_dir, port) =~= before + serve + after);
    lemma_middle(before, serve, after);
}

/// Two arguments that follow each other stand on lines that follow each other.
proof fn lemma_argument_pair(arguments: Seq<Seq<char>>, at: int)
    requires
        0 <= at,
        at + 1 < arguments.len(),
    ensures
        text::has_text(
            argument_lines(arguments),
            argument_line(arguments[at]) + "\n"@ + argument_line(arguments[at + 1]),
        ),
    decreases arguments.len(),
{
    let pair = argument_line(arguments[at]) + "\n"@ + argument_line(arguments[at + 1]);
    let lines = argument_lines(arguments);
    let rest = arguments.drop_last();
    if at + 2 == arguments.len() {
        if at == 0 {
            assert(rest.len() == 1);
            assert(lines =~= seq![] + pair + seq![]);
            lemma_middle(seq![], pair, seq![]);
        } else {
            let front = argument_lines(rest.drop_last()) + "\n"@;
            assert(argument_lines(rest) == front + argument_line(rest.last()));
            assert(lines =~= front + pair + seq![]);
            lemma_middle(front, pair, seq![]);
        }
    } else {
        lemma_argument_pair(rest, at);
        let i = choose|i: int| text::occurs_at(argument_lines(rest), pair, i);
        let tail = "\n"@ + argument_line(arguments.last());
        assert(lines =~= argument_lines(rest) + tail);
        assert(lines.subrange(i, i + pair.len()) =~= argument_lines(rest).subrange(
            i,
            i + pair.len(),
        ));
        assert(text::occurs_at(lines, pair, i));
    }
}

/// The property list holds the arguments.
proof fn lemma_plist_holds_arguments(arguments: Seq<Seq<char>>, log: Seq<char>)
    ensures
        text::has_text(plist_text(arguments, log), argument_lines(arguments)),
{
    let front = "<?xml version=\"1.0\" encoding=\"UTF-8\"?>\n<!DOCTYPE plist PUBLIC \"-//Apple//DTD PLIST 1.0//EN\" \"http://www.apple.com/DTDs/PropertyList-1.0.dtd\">\n<plist version=\"1.0\">\n<dict>\n  <key>Label</key>\n  <string>"@
        + LAUNCHD_LABEL@ + "</string>\n  <key>ProgramArguments</key>\n  <array>\n"@;
    let lines = argument_lines(arguments);
    let back = "\n  </array>\n  <key>RunAtLoad</key>\n  <true/>\n  <key>KeepAlive</key>\n  <true/>\n  <key>ProcessType</key>\n  <string>Interactive</string>\n  <key>StandardOutPath</key>\n  <string>"@
        + xml_text(log) + "</string>\n  <key>StandardErrorPath</key>\n  <string>"@ + xml_text(log)
        + "</string>\n</dict>\n</plist>\n"@;
    assert(plist_text(arguments, log) =~= front + lines + back);
    lemma_middle(front, lines, back);
}

/// Text is escaped character by character: five characters by their names, and all others stand for
/// themselves.
pub proof fn law_text_is_escaped_character_by_character(a: Seq<char>, b: Seq<char>, c: char)
    ensures
        xml_text(Seq::<char>::empty()) == Seq::<char>::empty(),
        xml_text(a + b) == xml_text(a) + xml_text(b),
        xml_text("&"@) == "&amp;"@,
        xml_text("<"@) == "&lt;"@,
        xml_text(">"@) == "&gt;"@,
        xml_text("\""@) == "&quot;"@,
        xml_text("'"@) == "&apos;"@,
        c != '&' && c != '<' && c != '>' && c != '"' && c != '\'' ==> xml_text(seq![c]) == seq![c],
    decreases b.len(),
{
    reveal_with_fuel(xml_text, 2);
    reveal_strlit("&");
    reveal_strlit("<");
    reveal_strlit(">");
    reveal_strlit("\"");
    reveal_strlit("'");
    lemma_single_escape("&"@);
    lemma_single_escape("<"@);
    lemma_single_escape(">"@);
    lemma_single_escape("\""@);
    lemma_single_escape("'"@);
    lemma_single_escape(seq![c]);
    if b.len() == 0 {
        assert(a + b =~= a);
        assert(xml_text(a) + xml_text(b) =~= xml_text(a));
    } else {
        law_text_is_escaped_character_by_character(a, b.drop_last(), c);
        assert((a + b).drop_last() =~= a + b.drop_last());
        assert(xml_text(a + b) =~= xml_text(a) + xml_text(b));
    }
}

proof fn lemma_single_escape(s: Seq<char>)
    requires
        s.len() == 1,
    ensures
        xml_text(s) == xml_char(s[0]),
{
    reveal_with_fuel(xml_text, 2);
    assert(s.drop_last() =~= Seq::<char>::empty());
    assert(xml_text(s) =~= xml_char(s[0]));
}

/// The arguments of the program stand one behind the other, each escaped on a line of its own.
pub proof fn law_arguments_stand_on_their_lines(arguments: Seq<Seq<char>>, last: Seq<char>)
    ensures
        argument_lines(seq![last]) == "      <string>"@ + xml_text(last) + "</string>"@,
        arguments.len() > 0 ==> argument_lines(arguments.push(last)) == argument_lines(arguments)
            + "\n      <string>"@ + xml_text(last) + "</string>"@,
{
    reveal_strlit("\n");
    reveal_strlit("      <string>");
    reveal_strlit("\n      <string>");
    assert("\n"@ + "      <string>"@ =~= "\n      <string>"@);
    if arguments.len() > 0 {
        assert(arguments.push(last).drop_last() =~= arguments);
        assert(argument_lines(arguments.push(last)) =~= argument_lines(arguments)
            + "\n      <string>"@ + xml_text(last) + "</string>"@);
    }
}

/// The service runs the program, and tells it the port, the directory for what is received and the
/// token file; each name of an option stands before its value.
pub proof fn law_service_is_told_its_options(
    binary: Seq<char>,
    token_path: Seq<char>,
    download_dir: Seq<char>,
    port: nat,
)
    ensures
        ({
            let arguments = service_arguments(binary, token_path, download_dir, port);
            &&& arguments.len() == 10
            &&& arguments[0] == binary
            &&& arguments[1] == "serve"@
            &&& arguments[2] == "--host"@ && arguments[3] == "127.0.0.1"@
            &&& arguments[4] == "--port"@ && arguments[5] == text::decimal(port)
            &&& arguments[6] == "--download-dir"@ && arguments[7] == download_dir
            &&& arguments[8] == "--token-file"@ && arguments[9] == token_path
        }),
        unit_text(binary, token_path, download_dir, port)
            == "[Unit]\nDescription=Herdr remote download receiver\n\n[Service]\nExecStart="@
            + binary + " serve --host 127.0.0.1 --port "@ + text::decimal(port)
            + " --download-dir "@ + download_dir + " --token-file "@ + token_path
            + "\nRestart=always\n\n[Install]\nWantedBy=default.target\n"@,
{
}

/// A property list holds its arguments, and the file for both kinds of output, between words that are
/// always the same.
pub proof fn law_property_list_is_spelled_out(arguments: Seq<Seq<char>>, log: Seq<char>)
    ensures
        plist_text(arguments, log)
            == "<?xml version=\"1.0\" encoding=\"UTF-8\"?>\n<!DOCTYPE plist PUBLIC \"-//Apple//DTD PLIST 1.0//EN\" \"http://www.apple.com/DTDs/PropertyList-1.0.dtd\">\n<plist version=\"1.0\">\n<dict>\n  <key>Label</key>\n  <string>"@
            + "com.kosukeyano.herdr-remote-download"@
            + "</string>\n  <key>ProgramArguments</key>\n  <array>\n"@ + argument_lines(arguments)
            + "\n  </array>\n  <key>RunAtLoad</key>\n  <true/>\n  <key>KeepAlive</key>\n  <true/>\n  <key>ProcessType</key>\n  <string>Interactive</string>\n  <key>StandardOutPath</key>\n  <string>"@
            + xml_text(log) + "</string>\n  <key>StandardErrorPath</key>\n  <string>"@ + xml_text(
            log,
        ) + "</string>\n</dict>\n</plist>\n"@,
{
}

/// Two systems have services, each its own kind, which are asked for the service by its name; any
/// other system is told that it has none.
pub proof fn law_each_system_has_its_services(os: Seq<char>, uid: Seq<char>)
    ensures
        service_of("macos"@) == Some(ServiceKind::Launchd),
        service_of("linux"@) == Some(ServiceKind::Systemd),
        os != "macos"@ && os != "linux"@ ==> service_of(os) is None,
        service_fault(ServiceTask::Install) == error::fault(ErrorKind::InstallNeedsUnix),
        service_fault(ServiceTask::Status) == error::fault(ErrorKind::StatusNeedsUnix),
        unit_name() == "com.kosukeyano.herdr-remote-download.service"@,
        domain_of(uid) == "gui/"@ + uid,
        status_words(ServiceKind::Launchd, uid) == seq![
            "/bin/launchctl"@,
            "print"@,
            "gui/"@ + uid + "/com.kosukeyano.herdr-remote-download"@,
        ],
        status_words(ServiceKind::Systemd, uid) == seq![
            "systemctl"@,
            "--user"@,
            "is-active"@,
            "--quiet"@,
            "com.kosukeyano.herdr-remote-download.service"@,
        ],
{
    reveal_strlit("macos");
    reveal_strlit("linux");
    reveal_strlit("/");
    reveal_strlit(".service");
    reveal_strlit("com.kosukeyano.herdr-remote-download");
    reveal_strlit("com.kosukeyano.herdr-remote-download.service");
    reveal_strlit("/com.kosukeyano.herdr-remote-download");
    assert("macos"@[0] == 'm' && "linux"@[0] == 'l');
    assert(LAUNCHD_LABEL@ + ".service"@ =~= "com.kosukeyano.herdr-remote-download.service"@);
    assert("gui/"@ + uid + "/"@ + LAUNCHD_LABEL@ =~= "gui/"@ + uid
        + "/com.kosukeyano.herdr-remote-download"@);
}

/// A failed command is told by what it wrote to its error output, and by its output only where that
/// is empty; white space around it is left out.
pub proof fn law_error_output_comes_first(
    output: Seq<char>,
    front: Seq<char>,
    words: Seq<char>,
    back: Seq<char>,
)
    requires
        text::all_in(front, |c: char| text::is_space(c)),
        text::all_in(back, |c: char| text::is_space(c)),
        words.len() > 0,
        !text::is_space(words[0]),
        !text::is_space(words.last()),
    ensures
        said(output, front + words + back) == words,
        said(front + words + back, seq![]) == words,
{
    text::law_trim_takes_off_white_space_only(front, words, back);
}

} // verus!
