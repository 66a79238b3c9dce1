//! The key that opens the picker, in the configuration of the session.
use crate::error;
use crate::error::{ErrorKind, TransferError};
use crate::text;
use crate::text::{
    append_chars, ascii_alphanumeric, chars_of, includes, position_of_text, replaced_first, text_of,
    trimmed_back,
};
use vstd::prelude::*;
use vstd::slice::slice_subrange;

verus! {

pub const DOWNLOAD_ACTION: &'static str = "kosukeyano.remote-download.download";

pub const PICK_ACTION: &'static str = "kosukeyano.remote-download.pick";

pub const PICK_DESCRIPTION: &'static str = "pick a remote file to download";

pub const UPLOAD_ACTION: &'static str = "kosukeyano.remote-download.upload";

pub const UPLOAD_DESCRIPTION: &'static str = "upload files from the connected Mac";

/// The line by which a key once opened the direct download.
pub const LEGACY_COMMAND: &'static str = "command = \"kosukeyano.remote-download.download\"";

/// The line by which a key opens the picker.
pub const PICK_COMMAND: &'static str = "command = \"kosukeyano.remote-download.pick\"";

/// The line that once described the key.
pub const LEGACY_LINE: &'static str = "description = \"download selected remote file\"";

/// The line that describes the key.
pub const PICK_LINE: &'static str = "description = \"pick a remote file to download\"";

/// The section before which keys are bound.
pub const WORKTREES: &'static str = "[worktrees]";

// ---------------------------------------------------------------------------------------------
// Keys

/// A character of a key.
pub open spec fn is_key_char(c: char) -> bool {
    text::is_ascii_alphanumeric(c) || c == '+' || c == '_' || c == '-'
}

fn key_text(key: &[char]) -> (r: bool)
    ensures
        r == text::all_in(key@, |c: char| is_key_char(c)),
{
    let mut i: usize = 0;
    while i < key.len()
        invariant
            i <= key@.len(),
            forall|j: int| 0 <= j < i ==> is_key_char(#[trigger] key@[j]),
        decreases key@.len() - i,
    {
        let c = key[i];
        if !(ascii_alphanumeric(c) || c == '+' || c == '_' || c == '-') {
            assert(!is_key_char(key@[i as int]));
            return false;
        }
        i += 1;
    }
    true
}

/// A character that means something in a regular expression.
pub open spec fn is_regex_meta(c: char) -> bool {
    c == '\\' || c == '.' || c == '+' || c == '*' || c == '?' || c == '(' || c == ')' || c == '|' || c
        == '[' || c == ']' || c == '{' || c == '}' || c == '^' || c == '$' || c == '#' || c == '&'
        || c == '-' || c == '~'
}

/// A text with a backslash before each character that means something in a regular expression.
pub open spec fn regex_escaped(s: Seq<char>) -> Seq<char>
    decreases s.len(),
{
    if s.len() == 0 {
        seq![]
    } else if is_regex_meta(s.last()) {
        regex_escaped(s.drop_last()).push('\\').push(s.last())
    } else {
        regex_escaped(s.drop_last()).push(s.last())
    }
}

/// `regex::escape` puts a backslash before each meta character, and changes nothing else.
pub assume_specification [ regex::escape ](pattern: &str) -> (r: String)
    ensures
        r@ == regex_escaped(pattern@),
;

/// The regular expression for a line that binds a key.
pub open spec fn key_pattern(key: Seq<char>) -> Seq<char> {
    "(?m)^key\\s*=\\s*\""@ + regex_escaped(key) + "\"\\s*$"@
}

/// The longest key, in characters, whose regular expression is sure to be accepted.
pub const MAX_SURE_KEY_CHARS: usize = 100_000;

/// A key whose regular expression is sure to be accepted.
pub open spec fn is_sure_key(key: Seq<char>) -> bool {
    text::all_in(key, |c: char| is_key_char(c)) && key.len() <= MAX_SURE_KEY_CHARS
}

/// The characters from one position to another are white space.
pub open spec fn is_blank(text: Seq<char>, from: int, to: int) -> bool {
    from <= to && forall|i: int| from <= i < to ==> text::is_space(#[trigger] text[i])
}

/// A key between quotation marks.
pub open spec fn quoted(key: Seq<char>) -> Seq<char> {
    seq!['"'] + key + seq!['"']
}

/// At the beginning of a line stands `key`, then an equals sign, then the quoted key, up to the end
/// of a line, with white space around the sign and at the end.
pub open spec fn is_key_line(
    text: Seq<char>,
    key: Seq<char>,
    start: int,
    sign: int,
    quote: int,
    end: int,
) -> bool {
    &&& start == 0 || text[start - 1] == '\n'
    &&& text::occurs_at(text, "key"@, start)
    &&& is_blank(text, start + 3, sign) && text[sign] == '='
    &&& is_blank(text, sign + 1, quote) && text::occurs_at(text, quoted(key), quote)
    &&& is_blank(text, quote + quoted(key).len(), end)
    &&& end == text.len() || (end < text.len() && text[end] == '\n')
}

/// A configuration binds a key.
pub open spec fn binds_key(text: Seq<char>, key: Seq<char>) -> bool {
    exists|start: int, sign: int, quote: int, end: int|
        #[trigger] is_key_line(text, key, start, sign, quote, end)
}

/// Why a regular expression is refused where a pointer has so many bits, in the words of `regex`;
/// `None` where it is accepted.
pub uninterp spec fn regex_refusal(pattern: Seq<char>, bits: nat) -> Option<Seq<char>>;

/// `regex::Regex::new` and `Regex::is_match`, of the expression for a key: it matches exactly where
/// the text has a line that binds the key. Whether it is accepted, and the words of the error, are
/// named `regex_refusal`. It is refused only where its states take more than ten mebibytes. A
/// character of the key takes one state, of thirty-two bytes or fewer by the width of a pointer, so
/// that the expression for a key of up to a hundred thousand characters is always accepted.
#[verifier::external_body]
fn regex_is_match(pattern: &str, text: &str) -> (r: Result<bool, String>)
    requires
        exists|key: Seq<char>|
            pattern@ == #[trigger] key_pattern(key) && text::all_in(key, |c: char| is_key_char(c)),
    ensures
        match r {
            Ok(_) => regex_refusal(pattern@, usize::BITS as nat) is None,
            Err(words) => regex_refusal(pattern@, usize::BITS as nat) == Some(words@),
        },
        forall|key: Seq<char>|
            pattern@ == #[trigger] key_pattern(key) && is_sure_key(key) ==> r is Ok,
        forall|key: Seq<char>|
            pattern@ == #[trigger] key_pattern(key) && text::all_in(key, |c: char| is_key_char(c))
                ==> (r matches Ok(found) ==> found == binds_key(text@, key)),
{
    regex::Regex::new(pattern)
        .map(|expression| expression.is_match(text))
        .map_err(|error| error.to_string())
}

// ---------------------------------------------------------------------------------------------
// The configuration

/// The lines that bind a key to the picker.
pub open spec fn binding(key: Seq<char>) -> Seq<char> {
    "\n[[keys.command]]\nkey = \""@ + key + "\"\ntype = \"plugin_action\"\n"@ + PICK_COMMAND@
        + "\n"@ + PICK_LINE@ + "\n"@
}

/// A configuration in which a key is bound to the picker: before the section on worktrees, or at
/// the end.
pub open spec fn with_binding(content: Seq<char>, key: Seq<char>) -> Seq<char> {
    match text::find_text(content, WORKTREES@) {
        Some(i) => text::trim_back(content.take(i)) + "\n"@ + binding(key) + "\n"@ + content.skip(i),
        None => text::trim_back(content) + "\n"@ + binding(key),
    }
}

/// The configuration that binds a key to the picker, and whether it is a new one. `found` says that
/// the key is bound already: to the direct download, whose binding is brought up to date, or to
/// something else, which is an error.
pub open spec fn updated_config(content: Seq<char>, key: Seq<char>, found: bool) -> Result<
    (Seq<char>, bool),
    error::Fault,
> {
    if text::has_text(content, PICK_ACTION@) {
        if text::has_text(content, LEGACY_LINE@) {
            Ok((text::replace_first(content, LEGACY_LINE@, PICK_LINE@), true))
        } else {
            Ok((content, false))
        }
    } else if !text::all_in(key, |c: char| is_key_char(c)) {
        Err(error::fault(ErrorKind::UnsupportedKey))
    } else if found {
        if text::has_text(content, LEGACY_COMMAND@) {
            Ok(
                (
                    text::replace_first(
                        text::replace_first(content, LEGACY_COMMAND@, PICK_COMMAND@),
                        LEGACY_LINE@,
                        PICK_LINE@,
                    ),
                    true,
                ),
            )
        } else {
            Err(error::fault_about(ErrorKind::KeyInUse, key))
        }
    } else {
        Ok((with_binding(content, key), true))
    }
}

/// Whether it matters if the key is bound already.
pub open spec fn asks_for_key(content: Seq<char>, key: Seq<char>) -> bool {
    !text::has_text(content, PICK_ACTION@) && text::all_in(key, |c: char| is_key_char(c))
}

/// The model of a result that holds a configuration.
pub open spec fn config_result(r: Result<(String, bool), TransferError>) -> Result<
    (Seq<char>, bool),
    error::Fault,
> {
    match r {
        Ok((content, changed)) => Ok((content@, changed)),
        Err(error) => Err(error@),
    }
}

fn bind_key(content: &[char], key: &[char]) -> (r: String)
    ensures
        r@ == with_binding(content@, key@),
{
    let worktrees = chars_of(WORKTREES);
    proof {
        text::lemma_find_text(content@, WORKTREES@);
    }
    let at = position_of_text(content, &worktrees);
    let end: usize = match at {
        Some(i) => i,
        None => content.len(),
    };
    let front = slice_subrange(content, 0, end);
    assert(content@.take(content@.len() as int) =~= content@);
    assert(front@ =~= content@.take(end as int));
    let mut updated = text_of(trimmed_back(front));
    updated.append("\n");
    updated.append("\n[[keys.command]]\nkey = \"");
    append_chars(&mut updated, key);
    updated.append("\"\ntype = \"plugin_action\"\n");
    updated.append(PICK_COMMAND);
    updated.append("\n");
    updated.append(PICK_LINE);
    updated.append("\n");
    match at {
        Some(i) => {
            let back = slice_subrange(content, i, content.len());
            assert(back@ =~= content@.skip(i as int));
            updated.append("\n");
            append_chars(&mut updated, back);
        },
        None => {},
    }
    assert(updated@ =~= with_binding(content@, key@));
    updated
}

/// Brings a configuration up to date, given whether the key is bound already.
pub fn update_config(content: &str, key: &str, found: bool) -> (r: Result<
    (String, bool),
    TransferError,
>)
    ensures
        config_result(r) == updated_config(content@, key@, found),
{
    let chars = chars_of(content);
    let action = chars_of(PICK_ACTION);
    let legacy_line = chars_of(LEGACY_LINE);
    let line = chars_of(PICK_LINE);
    if includes(&chars, &action) {
        if includes(&chars, &legacy_line) {
            let updated = replaced_first(&chars, &legacy_line, &line);
            return Ok((text_of(&updated), true));
        }
        return Ok((content.to_owned(), false));
    }
    let key_chars = chars_of(key);
    if !key_text(&key_chars) {
        return Err(TransferError::new(ErrorKind::UnsupportedKey));
    }
    if found {
        let legacy_command = chars_of(LEGACY_COMMAND);
        if includes(&chars, &legacy_command) {
            let command = chars_of(PICK_COMMAND);
            let updated = replaced_first(&chars, &legacy_command, &command);
            let updated = replaced_first(&updated, &legacy_line, &line);
            return Ok((text_of(&updated), true));
        }
        return Err(TransferError::about(ErrorKind::KeyInUse, key.to_owned()));
    }
    Ok((bind_key(&chars, &key_chars), true))
}

/// Binds a key to the picker in a configuration; gives the configuration, and whether it is a new
/// one. It fails on a key with other characters and on a key that is taken; only a key of more than
/// a hundred thousand characters may be too long to be looked for.
pub fn add_keybinding_config(content: &str, key: &str) -> (r: Result<
    (String, bool),
    TransferError,
>)
    ensures
        !asks_for_key(content@, key@) ==> config_result(r) == updated_config(
            content@,
            key@,
            false,
        ),
        asks_for_key(content@, key@) ==> match regex_refusal(
            key_pattern(key@),
            usize::BITS as nat,
        ) {
            None => config_result(r) == updated_config(
                content@,
                key@,
                binds_key(content@, key@),
            ),
            Some(words) => r matches Err(error) && error@ == error::fault_about(
                ErrorKind::InvalidKeyPattern,
                words,
            ),
        },
        asks_for_key(content@, key@) && key@.len() <= MAX_SURE_KEY_CHARS ==> config_result(r)
            == updated_config(content@, key@, binds_key(content@, key@)),
{
    let chars = chars_of(content);
    let action = chars_of(PICK_ACTION);
    let key_chars = chars_of(key);
    if includes(&chars, &action) || !key_text(&key_chars) {
        return update_config(content, key, false);
    }
    let escaped = regex::escape(key);
    let mut pattern = "(?m)^key\\s*=\\s*\"".to_owned();
    pattern.append(escaped.as_str());
    pattern.append("\"\\s*$");
    assert(pattern@ == key_pattern(key@));
    match regex_is_match(pattern.as_str(), content) {
        Ok(found) => update_config(content, key, found),
        Err(words) => Err(TransferError::about(ErrorKind::InvalidKeyPattern, words)),
    }
}

// ---------------------------------------------------------------------------------------------
// Laws

/// What stands before or behind the place of a replacement still stands after it.
proof fn lemma_replacement_keeps(
    s: Seq<char>,
    from: Seq<char>,
    to: Seq<char>,
    kept: Seq<char>,
    at: int,
)
    requires
        text::occurs_at(s, kept, at),
        text::find_text(s, from) matches Some(i) ==> at + kept.len() <= i || i + from.len() <= at,
    ensures
        text::has_text(text::replace_first(s, from, to), kept),
{
    let r = text::replace_first(s, from, to);
    text::lemma_find_text(s, from);
    match text::find_text(s, from) {
        None => {
            assert(text::occurs_at(r, kept, at));
        },
        Some(i) => {
            if at + kept.len() <= i {
                assert(r.subrange(at, at + kept.len()) =~= s.subrange(at, at + kept.len()));
                assert(text::occurs_at(r, kept, at));
            } else {
                let moved = at - from.len() + to.len();
                assert(r.subrange(moved, moved + kept.len()) =~= s.subrange(at, at + kept.len()));
                assert(text::occurs_at(r, kept, moved));
            }
        },
    }
}

/// Bringing the description up to date leaves the action in place.
proof fn lemma_description_keeps_action(content: Seq<char>)
    requires
        text::has_text(content, PICK_ACTION@),
    ensures
        text::has_text(
            text::replace_first(content, LEGACY_LINE@, PICK_LINE@),
            PICK_ACTION@,
        ),
{
    reveal_strlit("kosukeyano.remote-download.pick");
    reveal_strlit("description = \"download selected remote file\"");
    let action = PICK_ACTION@;
    let legacy = LEGACY_LINE@;
    let at = choose|at: int| text::occurs_at(content, action, at);
    text::lemma_find_text(content, legacy);
    if text::find_text(content, legacy) is Some {
        let i = text::find_text(content, legacy)->0;
        assert forall|j: int| 0 <= j < legacy.len() implies content[i + j] == #[trigger] legacy[j] by {
            assert(content.subrange(i, i + legacy.len())[j] == legacy[j]);
        }
        assert forall|j: int| 0 <= j < legacy.len() implies #[trigger] legacy[j] != 'k' by {}
        assert(content[at] == 'k') by {
            assert(content.subrange(at, at + action.len())[0] == action[0]);
        }
        let last = action.len() - 1;
        assert(content[at + last] == 'k') by {
            assert(content.subrange(at, at + action.len())[last] == action[last]);
        }
        if i <= at < i + legacy.len() {
            assert(content[i + (at - i)] == legacy[at - i]);
        }
        if i <= at + last < i + legacy.len() {
            assert(content[i + (at + last - i)] == legacy[at + last - i]);
        }
    }
    lemma_replacement_keeps(content, legacy, PICK_LINE@, action, at);
}

/// What was put in stands in the result of a replacement.
proof fn lemma_replacement_puts_in(s: Seq<char>, from: Seq<char>, to: Seq<char>, part: Seq<char>)
    requires
        text::has_text(s, from),
        text::has_text(to, part),
    ensures
        text::has_text(text::replace_first(s, from, to), part),
{
    text::lemma_find_text(s, from);
    let i = text::find_text(s, from)->0;
    let at = choose|at: int| text::occurs_at(to, part, at);
    let r = text::replace_first(s, from, to);
    assert(r.subrange(i + at, i + at + part.len()) =~= to.subrange(at, at + part.len()));
    assert(text::occurs_at(r, part, i + at));
}

/// The command that opens the picker names its action.
proof fn lemma_command_names_action()
    ensures
        text::occurs_at(PICK_COMMAND@, PICK_ACTION@, 11),
{
    reveal_strlit("kosukeyano.remote-download.pick");
    reveal_strlit("command = \"kosukeyano.remote-download.pick\"");
    assert(PICK_COMMAND@.subrange(11, 11 + PICK_ACTION@.len() as int) =~= PICK_ACTION@);
}

/// A configuration with a binding holds the lines of the binding, and before them and behind them
/// what it held before, except for white space.
pub proof fn law_binding_is_put_in(content: Seq<char>, key: Seq<char>)
    ensures
        ({
            let split = match text::find_text(content, WORKTREES@) {
                Some(i) => i,
                None => content.len() as int,
            };
            let front = text::trim_back(content.take(split));
            let r = with_binding(content, key);
            &&& text::begins_with(r, front)
            &&& text::occurs_at(r, binding(key), front.len() as int + 1)
            &&& text::finishes_with(r, content.skip(split))
        }),
{
    text::lemma_find_text(content, WORKTREES@);
    reveal_strlit("\n");
    let r = with_binding(content, key);
    match text::find_text(content, WORKTREES@) {
        Some(i) => {
            let front = text::trim_back(content.take(i));
            assert(r.take(front.len() as int) =~= front);
            let at = front.len() as int + 1;
            assert(r.subrange(at, at + binding(key).len()) =~= binding(key));
            assert(r.skip(r.len() - content.skip(i).len()) =~= content.skip(i));
        },
        None => {
            assert(content.take(content.len() as int) =~= content);
            let front = text::trim_back(content);
            assert(r.take(front.len() as int) =~= front);
            let at = front.len() as int + 1;
            assert(r.subrange(at, at + binding(key).len()) =~= binding(key));
            assert(content.skip(content.len() as int) =~= seq![]);
            assert(r.skip(r.len() as int) =~= seq![]);
        },
    }
}

proof fn lemma_binding_names_action(content: Seq<char>, key: Seq<char>)
    ensures
        text::has_text(with_binding(content, key), PICK_ACTION@),
{
    lemma_command_names_action();
    law_binding_is_put_in(content, key);
    let r = with_binding(content, key);
    let split = match text::find_text(content, WORKTREES@) {
        Some(i) => i,
        None => content.len() as int,
    };
    let start = text::trim_back(content.take(split)).len() as int + 1;
    let lines = binding(key);
    let before = "\n[[keys.command]]\nkey = \""@ + key + "\"\ntype = \"plugin_action\"\n"@;
    let at = before.len() as int + 11;
    let n = PICK_ACTION@.len() as int;
    assert(lines.subrange(at, at + n) =~= PICK_COMMAND@.subrange(11, 11 + n));
    assert(lines == r.subrange(start, start + lines.len()));
    assert(r.subrange(start + at, start + at + n) =~= lines.subrange(at, at + n));
    assert(text::occurs_at(r, PICK_ACTION@, start + at));
}

/// Where the line on the key stands in the lines of a binding.
proof fn lemma_binding_chars(key: Seq<char>)
    ensures
        binding(key).len() > 26 + key.len(),
        binding(key)[17] == '\n',
        binding(key).subrange(18, 21) == "key"@,
        binding(key)[21] == ' ',
        binding(key)[22] == '=',
        binding(key)[23] == ' ',
        binding(key).subrange(24, 26 + key.len() as int) == quoted(key),
        binding(key)[26 + key.len() as int] == '\n',
{
    reveal_strlit("\n[[keys.command]]\nkey = \"");
    reveal_strlit("\"\ntype = \"plugin_action\"\n");
    reveal_strlit("key");
    let head = "\n[[keys.command]]\nkey = \""@;
    let tail = "\"\ntype = \"plugin_action\"\n"@;
    let more = PICK_COMMAND@ + "\n"@ + PICK_LINE@ + "\n"@;
    let n = key.len() as int;
    assert(binding(key) =~= head + key + tail + more);
    assert(binding(key).subrange(18, 21) =~= "key"@);
    assert(binding(key).subrange(24, 26 + n) =~= quoted(key));
}

/// A configuration with a binding binds the key.
pub proof fn law_binding_binds_the_key(content: Seq<char>, key: Seq<char>)
    ensures
        binds_key(with_binding(content, key), key),
{
    law_binding_is_put_in(content, key);
    lemma_binding_chars(key);
    let split = match text::find_text(content, WORKTREES@) {
        Some(i) => i,
        None => content.len() as int,
    };
    let at = text::trim_back(content.take(split)).len() as int + 1;
    lemma_placed_key_line(with_binding(content, key), binding(key), key, at);
}

/// The lines of a binding bind the key wherever they stand.
proof fn lemma_placed_key_line(s: Seq<char>, lines: Seq<char>, key: Seq<char>, at: int)
    requires
        text::occurs_at(s, lines, at),
        lines.len() > 26 + key.len(),
        lines[17] == '\n',
        lines.subrange(18, 21) == "key"@,
        lines[21] == ' ',
        lines[22] == '=',
        lines[23] == ' ',
        lines.subrange(24, 26 + key.len() as int) == quoted(key),
        lines[26 + key.len() as int] == '\n',
    ensures
        binds_key(s, key),
{
    reveal_strlit("key");
    let n = key.len() as int;
    lemma_occurrence_chars(s, lines, at);
    assert(s.subrange(at + 18, at + 21) =~= lines.subrange(18, 21));
    assert(s.subrange(at + 24, at + 26 + n) =~= lines.subrange(24, 26 + n));
    assert(s[at + 17] == lines[17]);
    assert(s[at + 21] == lines[21]);
    assert(s[at + 22] == lines[22]);
    assert(s[at + 23] == lines[23]);
    assert(s[at + (26 + n)] == lines[26 + n]);
    assert(quoted(key).len() == n + 2);
    assert(is_blank(s, at + 21, at + 22));
    assert(is_blank(s, at + 23, at + 24));
    assert(is_key_line(s, key, at + 18, at + 22, at + 24, at + 26 + n));
}

/// An accepted configuration opens the picker: it names the picker's action.
pub proof fn law_updated_config_names_the_picker(content: Seq<char>, key: Seq<char>, found: bool)
    requires
        updated_config(content, key, found) is Ok,
    ensures
        text::has_text(updated_config(content, key, found)->Ok_0.0, PICK_ACTION@),
{
    if text::has_text(content, PICK_ACTION@) {
        lemma_description_keeps_action(content);
    } else if found {
        lemma_command_names_action();
        assert(text::has_text(PICK_COMMAND@, PICK_ACTION@));
        lemma_replacement_puts_in(content, LEGACY_COMMAND@, PICK_COMMAND@, PICK_ACTION@);
        lemma_description_keeps_action(
            text::replace_first(content, LEGACY_COMMAND@, PICK_COMMAND@),
        );
    } else {
        lemma_binding_names_action(content, key);
    }
}

/// Binding a key fails exactly where the picker is not bound yet and the key holds other characters,
/// or is taken by something that is not the direct download.
pub proof fn law_binding_fails_on_a_bad_or_taken_key(
    content: Seq<char>,
    key: Seq<char>,
    found: bool,
)
    ensures
        updated_config(content, key, found) is Err <==> !text::has_text(content, PICK_ACTION@) && (
        !text::all_in(key, |c: char| is_key_char(c)) || (found && !text::has_text(
            content,
            LEGACY_COMMAND@,
        ))),
{
}

/// The characters of the old description that the proofs below look at.
proof fn lemma_legacy_line_chars()
    ensures
        LEGACY_LINE@.len() == 45,
        LEGACY_LINE@[0] == 'd',
        LEGACY_LINE@[14] == '"',
        LEGACY_LINE@[15] == 'd',
        LEGACY_LINE@[43] == 'e',
        LEGACY_LINE@[44] == '"',
        forall|j: int| 0 <= j < 45 ==> #[trigger] LEGACY_LINE@[j] != 'k' && LEGACY_LINE@[j] != '\n',
{
    reveal_strlit("description = \"download selected remote file\"");
}

/// Where a text occurs, its characters stand.
proof fn lemma_occurrence_chars(s: Seq<char>, pattern: Seq<char>, at: int)
    requires
        text::occurs_at(s, pattern, at),
    ensures
        forall|j: int| 0 <= j < pattern.len() ==> s[at + j] == #[trigger] pattern[j],
{
    assert forall|j: int| 0 <= j < pattern.len() implies s[at + j] == #[trigger] pattern[j] by {
        assert(s.subrange(at, at + pattern.len())[j] == pattern[j]);
    }
}

/// What occurs within the bounds of a part of a text occurs in the part.
proof fn lemma_occurrence_in_part(s: Seq<char>, pattern: Seq<char>, at: int, low: int, high: int)
    requires
        text::occurs_at(s, pattern, at),
        0 <= low <= at,
        at + pattern.len() <= high <= s.len(),
    ensures
        text::has_text(s.subrange(low, high), pattern),
{
    let part = s.subrange(low, high);
    assert(part.subrange(at - low, at - low + pattern.len()) =~= s.subrange(
        at,
        at + pattern.len(),
    ));
    assert(text::occurs_at(part, pattern, at - low));
}

/// What a text lacks, its parts lack.
proof fn lemma_part_lacks(s: Seq<char>, pattern: Seq<char>, low: int, high: int)
    requires
        !text::has_text(s, pattern),
        0 <= low <= high <= s.len(),
    ensures
        !text::has_text(s.subrange(low, high), pattern),
{
    let part = s.subrange(low, high);
    if text::has_text(part, pattern) {
        let at = choose|at: int| text::occurs_at(part, pattern, at);
        assert(s.subrange(low + at, low + at + pattern.len()) =~= part.subrange(
            at,
            at + pattern.len(),
        ));
        assert(text::occurs_at(s, pattern, low + at));
    }
}

/// Two texts that lack the old description lack it as lines of one text.
proof fn lemma_lines_lack_legacy_line(a: Seq<char>, b: Seq<char>)
    requires
        !text::has_text(a, LEGACY_LINE@),
        !text::has_text(b, LEGACY_LINE@),
    ensures
        !text::has_text(a + "\n"@ + b, LEGACY_LINE@),
{
    reveal_strlit("\n");
    lemma_legacy_line_chars();
    let legacy = LEGACY_LINE@;
    let s = a + "\n"@ + b;
    if text::has_text(s, legacy) {
        let at = choose|at: int| text::occurs_at(s, legacy, at);
        let end = a.len() as int;
        if at + legacy.len() <= end {
            lemma_occurrence_in_part(s, legacy, at, 0, end);
            assert(s.subrange(0, end) =~= a);
        } else if end < at {
            lemma_occurrence_in_part(s, legacy, at, end + 1, s.len() as int);
            assert(s.subrange(end + 1, s.len() as int) =~= b);
        } else {
            lemma_occurrence_chars(s, legacy, at);
            assert(s[at + (end - at)] == legacy[end - at]);
        }
    }
}

/// The lines of a binding do not hold the old description.
proof fn lemma_binding_lacks_legacy_line(key: Seq<char>)
    requires
        text::all_in(key, |c: char| is_key_char(c)),
    ensures
        !text::has_text(binding(key), LEGACY_LINE@),
{
    lemma_legacy_line_chars();
    let legacy = LEGACY_LINE@;
    reveal_strlit("");
    reveal_strlit("\n");
    reveal_strlit("\n[[keys.command]]\nkey = \"");
    reveal_strlit("[[keys.command]]");
    reveal_strlit("key = \"");
    reveal_strlit("\"");
    reveal_strlit("\"\ntype = \"plugin_action\"\n");
    reveal_strlit("type = \"plugin_action\"");
    reveal_strlit("command = \"kosukeyano.remote-download.pick\"");
    reveal_strlit("description = \"pick a remote file to download\"");
    let nothing = ""@;
    let key_line = "key = \""@ + key + "\""@;
    if text::has_text(PICK_LINE@, legacy) {
        let at = choose|at: int| text::occurs_at(PICK_LINE@, legacy, at);
        lemma_occurrence_chars(PICK_LINE@, legacy, at);
        assert(PICK_LINE@[at + 0] == legacy[0]);
        assert(PICK_LINE@[at + 15] == legacy[15]);
    }
    if text::has_text(key_line, legacy) {
        let at = choose|at: int| text::occurs_at(key_line, legacy, at);
        lemma_occurrence_chars(key_line, legacy, at);
        assert(key_line[at + 14] == legacy[14]);
        assert(key_line[at + 14] == key[at + 14 - 7]);
        assert(is_key_char(key[at + 14 - 7]));
    }
    let from_line = PICK_LINE@ + "\n"@ + nothing;
    lemma_lines_lack_legacy_line(PICK_LINE@, nothing);
    let from_command = PICK_COMMAND@ + "\n"@ + from_line;
    lemma_lines_lack_legacy_line(PICK_COMMAND@, from_line);
    let from_type = "type = \"plugin_action\""@ + "\n"@ + from_command;
    lemma_lines_lack_legacy_line("type = \"plugin_action\""@, from_command);
    let from_key = key_line + "\n"@ + from_type;
    lemma_lines_lack_legacy_line(key_line, from_type);
    let from_head = "[[keys.command]]"@ + "\n"@ + from_key;
    lemma_lines_lack_legacy_line("[[keys.command]]"@, from_key);
    lemma_lines_lack_legacy_line(nothing, from_head);
    assert("\n[[keys.command]]\nkey = \""@ =~= "\n"@ + "[[keys.command]]"@ + "\n"@ + "key = \""@);
    assert("\"\ntype = \"plugin_action\"\n"@ =~= "\""@ + "\n"@ + "type = \"plugin_action\""@
        + "\n"@);
    assert(binding(key) =~= nothing + "\n"@ + from_head);
}

/// A binding brings in no old description.
proof fn lemma_with_binding_lacks_legacy_line(content: Seq<char>, key: Seq<char>)
    requires
        !text::has_text(content, LEGACY_LINE@),
        text::all_in(key, |c: char| is_key_char(c)),
    ensures
        !text::has_text(with_binding(content, key), LEGACY_LINE@),
{
    text::lemma_find_text(content, WORKTREES@);
    lemma_binding_lacks_legacy_line(key);
    let split = match text::find_text(content, WORKTREES@) {
        Some(i) => i,
        None => content.len() as int,
    };
    let head = content.take(split);
    assert(content.take(content.len() as int) =~= content);
    let front = text::trim_back(head);
    text::lemma_trim_back(head);
    assert(front =~= content.subrange(0, front.len() as int));
    lemma_part_lacks(content, LEGACY_LINE@, 0, front.len() as int);
    lemma_lines_lack_legacy_line(front, binding(key));
    if text::find_text(content, WORKTREES@) is Some {
        let back = content.skip(split);
        assert(back =~= content.subrange(split, content.len() as int));
        lemma_part_lacks(content, LEGACY_LINE@, split, content.len() as int);
        lemma_lines_lack_legacy_line(front + "\n"@ + binding(key), back);
    }
}

/// Bringing the command up to date brings in no old description.
proof fn lemma_command_brings_no_legacy_line(content: Seq<char>)
    requires
        !text::has_text(content, LEGACY_LINE@),
    ensures
        !text::has_text(
            text::replace_first(content, LEGACY_COMMAND@, PICK_COMMAND@),
            LEGACY_LINE@,
        ),
{
    let legacy = LEGACY_LINE@;
    let s = text::replace_first(content, LEGACY_COMMAND@, PICK_COMMAND@);
    text::lemma_find_text(content, LEGACY_COMMAND@);
    if text::find_text(content, LEGACY_COMMAND@) is Some && text::has_text(s, legacy) {
        let i = text::find_text(content, LEGACY_COMMAND@)->0;
        let at = choose|at: int| text::occurs_at(s, legacy, at);
        let rest = i + LEGACY_COMMAND@.len();
        lemma_description_beside_command(content.take(i), content.skip(rest), at);
        if at + 45 <= i {
            lemma_occurrence_in_part(s, legacy, at, 0, i);
            assert(s.subrange(0, i) =~= content.subrange(0, i));
            lemma_part_lacks(content, legacy, 0, i);
        } else {
            lemma_occurrence_in_part(s, legacy, at, i + 43, s.len() as int);
            assert(s.subrange(i + 43, s.len() as int) =~= content.subrange(
                rest,
                content.len() as int,
            ));
            lemma_part_lacks(content, legacy, rest, content.len() as int);
        }
    }
}

/// Configuring again changes nothing, whatever the key, where the configuration held no old
/// description to begin with; and in any case exactly where none is left.
pub proof fn law_configuring_again_changes_nothing(
    content: Seq<char>,
    key: Seq<char>,
    found: bool,
    other: Seq<char>,
    found_again: bool,
)
    requires
        updated_config(content, key, found) is Ok,
    ensures
        ({
            let updated = updated_config(content, key, found)->Ok_0.0;
            let again = updated_config(updated, other, found_again);
            &&& !text::has_text(content, LEGACY_LINE@) ==> again == Ok::<_, error::Fault>(
                (updated, false),
            )
            &&& again == Ok::<_, error::Fault>((updated, false)) <==> !text::has_text(
                updated,
                LEGACY_LINE@,
            )
        }),
{
    law_updated_config_names_the_picker(content, key, found);
    if !text::has_text(content, LEGACY_LINE@) && !text::has_text(content, PICK_ACTION@) {
        if found {
            lemma_command_brings_no_legacy_line(content);
            let renamed = text::replace_first(content, LEGACY_COMMAND@, PICK_COMMAND@);
            text::lemma_find_text(renamed, LEGACY_LINE@);
        } else {
            lemma_with_binding_lacks_legacy_line(content, key);
        }
    }
}

/// A configuration is told to be changed exactly where it is another one.
pub proof fn law_changed_config_is_another(content: Seq<char>, key: Seq<char>, found: bool)
    ensures
        updated_config(content, key, found) matches Ok((updated, changed)) ==> changed == (updated
            != content),
{
    if updated_config(content, key, found) is Ok {
        law_updated_config_names_the_picker(content, key, found);
        lemma_legacy_line_chars();
        reveal_strlit("description = \"pick a remote file to download\"");
        text::lemma_find_text(content, LEGACY_LINE@);
    }
}

/// The old command and the old description never overlap: the one stands in front of the other.
pub proof fn law_old_lines_are_apart(content: Seq<char>, command: int, line: int)
    requires
        text::occurs_at(content, LEGACY_COMMAND@, command),
        text::occurs_at(content, LEGACY_LINE@, line),
    ensures
        line + LEGACY_LINE@.len() <= command || command + LEGACY_COMMAND@.len() <= line,
{
    reveal_strlit("command = \"kosukeyano.remote-download.download\"");
    reveal_strlit("description = \"download selected remote file\"");
    let first = LEGACY_COMMAND@;
    let second = LEGACY_LINE@;
    lemma_legacy_line_chars();
    lemma_occurrence_chars(content, first, command);
    lemma_occurrence_chars(content, second, line);
    assert(content[command + 11] == first[11]);
    assert(content[command + 15] == first[15]);
    if line <= command + 11 < line + 45 {
        assert(content[line + (command + 11 - line)] == second[command + 11 - line]);
    }
    if line <= command + 15 < line + 45 {
        assert(content[line + (command + 15 - line)] == second[command + 15 - line]);
    }
    if line <= command + 11 && command < line + 45 {
        assert(content[line + 44] == second[44]);
        assert(content[line + 43] == second[43]);
        assert(content[command + (line + 44 - command)] == first[line + 44 - command]);
        assert(line + 44 == command + 10);
        assert(content[command + 9] == first[9]);
    } else if line > command + 15 && line < command + first.len() {
        assert(content[line + 0] == second[0]);
        assert(content[line + 1] == second[1]);
        assert(second[1] == 'e');
        assert(content[command + (line - command)] == first[line - command]);
        if line + 1 < command + first.len() {
            assert(content[command + (line + 1 - command)] == first[line + 1 - command]);
        }
    }
}

/// A text that stands first at one place of a whole stands first at that place after something
/// behind it was exchanged.
proof fn lemma_still_first(front: Seq<char>, part: Seq<char>, back: Seq<char>, other: Seq<char>)
    requires
        forall|j: int|
            0 <= j < front.len() ==> !#[trigger] text::occurs_at(front + part + back, part, j),
    ensures
        forall|j: int|
            0 <= j < front.len() ==> !#[trigger] text::occurs_at(front + part + other, part, j),
{
    let s = front + part + back;
    let t = front + part + other;
    assert forall|j: int| 0 <= j < front.len() implies !#[trigger] text::occurs_at(t, part, j) by {
        if text::occurs_at(t, part, j) {
            assert(s.subrange(j, j + part.len()) =~= t.subrange(j, j + part.len()));
            assert(text::occurs_at(s, part, j));
        }
    }
}

/// Upgrading the old binding exchanges its command and its description, each where it first stands,
/// and keeps all the rest: what stands in front of them, between them and behind them.
pub proof fn law_upgrade_exchanges_two_lines_only(
    front: Seq<char>,
    middle: Seq<char>,
    back: Seq<char>,
    key: Seq<char>,
)
    requires
        text::all_in(key, |c: char| is_key_char(c)),
    ensures
        ({
            let content = front + LEGACY_COMMAND@ + back;
            !text::has_text(content, PICK_ACTION@) && !text::has_text(content, LEGACY_LINE@) && (
            forall|j: int|
                0 <= j < front.len() ==> !#[trigger] text::occurs_at(content, LEGACY_COMMAND@, j))
                ==> updated_config(content, key, true) == Ok::<_, error::Fault>(
                (front + PICK_COMMAND@ + back, true),
            )
        }),
        ({
            let head = front + LEGACY_COMMAND@ + middle;
            let content = head + LEGACY_LINE@ + back;
            !text::has_text(content, PICK_ACTION@) && (forall|j: int|
                0 <= j < front.len() ==> !#[trigger] text::occurs_at(content, LEGACY_COMMAND@, j))
                && (forall|j: int|
                0 <= j < head.len() ==> !#[trigger] text::occurs_at(content, LEGACY_LINE@, j))
                ==> updated_config(content, key, true) == Ok::<_, error::Fault>(
                (front + PICK_COMMAND@ + middle + PICK_LINE@ + back, true),
            )
        }),
        ({
            let head = front + LEGACY_LINE@ + middle;
            let content = head + LEGACY_COMMAND@ + back;
            !text::has_text(content, PICK_ACTION@) && (forall|j: int|
                0 <= j < head.len() ==> !#[trigger] text::occurs_at(content, LEGACY_COMMAND@, j))
                && (forall|j: int|
                0 <= j < front.len() ==> !#[trigger] text::occurs_at(content, LEGACY_LINE@, j))
                ==> updated_config(content, key, true) == Ok::<_, error::Fault>(
                (front + PICK_LINE@ + middle + PICK_COMMAND@ + back, true),
            )
        }),
{
    lemma_upgrade_without_description(front, back, key);
    lemma_upgrade_with_description_behind(front, middle, back, key);
    lemma_upgrade_with_description_in_front(front, middle, back, key);
}

proof fn lemma_command_stands(front: Seq<char>, back: Seq<char>)
    ensures
        text::has_text(front + LEGACY_COMMAND@ + back, LEGACY_COMMAND@),
{
    let content = front + LEGACY_COMMAND@ + back;
    let n = front.len() as int;
    assert(content.subrange(n, n + LEGACY_COMMAND@.len()) =~= LEGACY_COMMAND@);
    assert(text::occurs_at(content, LEGACY_COMMAND@, n));
}

proof fn lemma_upgrade_without_description(front: Seq<char>, back: Seq<char>, key: Seq<char>)
    requires
        text::all_in(key, |c: char| is_key_char(c)),
    ensures
        ({
            let content = front + LEGACY_COMMAND@ + back;
            !text::has_text(content, PICK_ACTION@) && !text::has_text(content, LEGACY_LINE@) && (
            forall|j: int|
                0 <= j < front.len() ==> !#[trigger] text::occurs_at(content, LEGACY_COMMAND@, j))
                ==> updated_config(content, key, true) == Ok::<_, error::Fault>(
                (front + PICK_COMMAND@ + back, true),
            )
        }),
{
    let content = front + LEGACY_COMMAND@ + back;
    lemma_command_stands(front, back);
    text::law_replacement_keeps_the_rest(front, LEGACY_COMMAND@, back, PICK_COMMAND@);
    if !text::has_text(content, LEGACY_LINE@) {
        lemma_command_brings_no_legacy_line(content);
        let renamed = text::replace_first(content, LEGACY_COMMAND@, PICK_COMMAND@);
        text::law_replacement_keeps_the_rest(renamed, LEGACY_LINE@, back, PICK_LINE@);
    }
}

/// The old description stands in front of the new command or behind it.
proof fn lemma_description_beside_command(front: Seq<char>, back: Seq<char>, j: int)
    requires
        text::occurs_at(front + PICK_COMMAND@ + back, LEGACY_LINE@, j),
    ensures
        PICK_COMMAND@.len() == 43,
        LEGACY_LINE@.len() == 45,
        j + 45 <= front.len() || front.len() + 43 <= j,
{
    lemma_legacy_line_chars();
    reveal_strlit("command = \"kosukeyano.remote-download.pick\"");
    let line = LEGACY_LINE@;
    let command = PICK_COMMAND@;
    let t = front + command + back;
    let n = front.len() as int;
    lemma_occurrence_chars(t, line, j);
    assert forall|k: int| 0 <= k < 43 implies t[n + k] == #[trigger] command[k] by {}
    assert(t[n + 11] == command[11]);
    assert(t[n + 41] == command[41]);
    if j <= n + 11 < j + 45 {
        assert(t[j + (n + 11 - j)] == line[n + 11 - j]);
    }
    if j <= n + 41 < j + 45 {
        assert(t[j + (n + 41 - j)] == line[n + 41 - j]);
    }
    if j <= n + 11 && n < j + 45 {
        assert(t[j + 44] == line[44]);
        assert(t[j + 44] == command[j + 44 - n]);
        assert(j + 44 == n + 10);
        assert(t[j + 43] == line[43]);
        assert(t[n + 9] == command[9]);
    } else if n + 11 < j && j < n + 43 {
        assert(j == n + 42);
        assert(t[j + 0] == line[0]);
        assert(t[n + 42] == command[42]);
    }
}

/// The old description that stands first behind the command stands first when the command is new.
proof fn lemma_description_is_first_behind(
    front: Seq<char>,
    middle: Seq<char>,
    back: Seq<char>,
)
    requires
        ({
            let head = front + LEGACY_COMMAND@ + middle;
            forall|j: int|
                0 <= j < head.len() ==> !#[trigger] text::occurs_at(
                    head + LEGACY_LINE@ + back,
                    LEGACY_LINE@,
                    j,
                )
        }),
    ensures
        ({
            let head = front + PICK_COMMAND@ + middle;
            forall|j: int|
                0 <= j < head.len() ==> !#[trigger] text::occurs_at(
                    head + LEGACY_LINE@ + back,
                    LEGACY_LINE@,
                    j,
                )
        }),
{
    let line = LEGACY_LINE@;
    let old_head = front + LEGACY_COMMAND@ + middle;
    let new_head = front + PICK_COMMAND@ + middle;
    let s = old_head + line + back;
    let t = new_head + line + back;
    let rest = middle + line + back;
    let n = front.len() as int;
    let shift = LEGACY_COMMAND@.len() - PICK_COMMAND@.len();
    assert(t =~= front + PICK_COMMAND@ + rest);
    assert(s =~= front + LEGACY_COMMAND@ + rest);
    assert forall|j: int| 0 <= j < new_head.len() implies !#[trigger] text::occurs_at(
        t,
        line,
        j,
    ) by {
        if text::occurs_at(t, line, j) {
            lemma_description_beside_command(front, rest, j);
            if j + 45 <= n {
                assert(s.subrange(j, j + 45) =~= t.subrange(j, j + 45));
                assert(text::occurs_at(s, line, j));
            } else {
                assert(s.subrange(j + shift, j + shift + 45) =~= t.subrange(j, j + 45));
                assert(text::occurs_at(s, line, j + shift));
            }
        }
    }
}

proof fn lemma_upgrade_with_description_behind(
    front: Seq<char>,
    middle: Seq<char>,
    back: Seq<char>,
    key: Seq<char>,
)
    requires
        text::all_in(key, |c: char| is_key_char(c)),
    ensures
        ({
            let head = front + LEGACY_COMMAND@ + middle;
            let content = head + LEGACY_LINE@ + back;
            !text::has_text(content, PICK_ACTION@) && (forall|j: int|
                0 <= j < front.len() ==> !#[trigger] text::occurs_at(content, LEGACY_COMMAND@, j))
                && (forall|j: int|
                0 <= j < head.len() ==> !#[trigger] text::occurs_at(content, LEGACY_LINE@, j))
                ==> updated_config(content, key, true) == Ok::<_, error::Fault>(
                (front + PICK_COMMAND@ + middle + PICK_LINE@ + back, true),
            )
        }),
{
    let head = front + LEGACY_COMMAND@ + middle;
    let content = head + LEGACY_LINE@ + back;
    let rest = middle + LEGACY_LINE@ + back;
    if (forall|j: int|
        0 <= j < front.len() ==> !#[trigger] text::occurs_at(content, LEGACY_COMMAND@, j)) && (
    forall|j: int| 0 <= j < head.len() ==> !#[trigger] text::occurs_at(content, LEGACY_LINE@, j)) {
        assert(content =~= front + LEGACY_COMMAND@ + rest);
        lemma_command_stands(front, rest);
        text::law_replacement_keeps_the_rest(front, LEGACY_COMMAND@, rest, PICK_COMMAND@);
        let renamed = front + PICK_COMMAND@ + middle;
        assert(front + PICK_COMMAND@ + rest =~= renamed + LEGACY_LINE@ + back);
        lemma_description_is_first_behind(front, middle, back);
        text::law_replacement_keeps_the_rest(renamed, LEGACY_LINE@, back, PICK_LINE@);
    }
}

proof fn lemma_upgrade_with_description_in_front(
    front: Seq<char>,
    middle: Seq<char>,
    back: Seq<char>,
    key: Seq<char>,
)
    requires
        text::all_in(key, |c: char| is_key_char(c)),
    ensures
        ({
            let head = front + LEGACY_LINE@ + middle;
            let content = head + LEGACY_COMMAND@ + back;
            !text::has_text(content, PICK_ACTION@) && (forall|j: int|
                0 <= j < head.len() ==> !#[trigger] text::occurs_at(content, LEGACY_COMMAND@, j))
                && (forall|j: int|
                0 <= j < front.len() ==> !#[trigger] text::occurs_at(content, LEGACY_LINE@, j))
                ==> updated_config(content, key, true) == Ok::<_, error::Fault>(
                (front + PICK_LINE@ + middle + PICK_COMMAND@ + back, true),
            )
        }),
{
    let head = front + LEGACY_LINE@ + middle;
    let content = head + LEGACY_COMMAND@ + back;
    if (forall|j: int|
        0 <= j < head.len() ==> !#[trigger] text::occurs_at(content, LEGACY_COMMAND@, j)) && (
    forall|j: int| 0 <= j < front.len() ==> !#[trigger] text::occurs_at(content, LEGACY_LINE@, j)) {
        lemma_command_stands(head, back);
        text::law_replacement_keeps_the_rest(head, LEGACY_COMMAND@, back, PICK_COMMAND@);
        let old_rest = middle + LEGACY_COMMAND@ + back;
        let rest = middle + PICK_COMMAND@ + back;
        assert(content =~= front + LEGACY_LINE@ + old_rest);
        assert(head + PICK_COMMAND@ + back =~= front + LEGACY_LINE@ + rest);
        lemma_still_first(front, LEGACY_LINE@, old_rest, rest);
        text::law_replacement_keeps_the_rest(front, LEGACY_LINE@, rest, PICK_LINE@);
        assert(front + PICK_LINE@ + rest =~= front + PICK_LINE@ + middle + PICK_COMMAND@ + back);
    }
}

/// A configuration that opens the picker already is changed in its description alone, where that is
/// the old one, and otherwise kept as it is, whatever the key.
pub proof fn law_bound_picker_is_only_described_anew(
    front: Seq<char>,
    back: Seq<char>,
    content: Seq<char>,
    key: Seq<char>,
    found: bool,
)
    ensures
        text::has_text(content, PICK_ACTION@) && !text::has_text(content, LEGACY_LINE@)
            ==> updated_config(content, key, found) == Ok::<_, error::Fault>((content, false)),
        ({
            let whole = front + LEGACY_LINE@ + back;
            text::has_text(whole, PICK_ACTION@) && (forall|j: int|
                0 <= j < front.len() ==> !#[trigger] text::occurs_at(whole, LEGACY_LINE@, j))
                ==> updated_config(whole, key, found) == Ok::<_, error::Fault>(
                (front + PICK_LINE@ + back, true),
            )
        }),
{
    let whole = front + LEGACY_LINE@ + back;
    let n = front.len() as int;
    assert(whole.subrange(n, n + LEGACY_LINE@.len()) =~= LEGACY_LINE@);
    assert(text::occurs_at(whole, LEGACY_LINE@, n));
    text::law_replacement_keeps_the_rest(front, LEGACY_LINE@, back, PICK_LINE@);
}

/// A new binding is written out behind what was there, or in front of the section on worktrees; all
/// that was there stays, except for white space at the place.
pub proof fn law_new_binding_is_written_out(
    front: Seq<char>,
    blank: Seq<char>,
    back: Seq<char>,
    key: Seq<char>,
)
    requires
        text::all_in(blank, |c: char| text::is_space(c)),
        front.len() > 0 ==> !text::is_space(front.last()),
        text::all_in(key, |c: char| is_key_char(c)),
    ensures
        ({
            let lines = "\n\n[[keys.command]]\nkey = \""@ + key
                + "\"\ntype = \"plugin_action\"\ncommand = \"kosukeyano.remote-download.pick\"\ndescription = \"pick a remote file to download\"\n"@;
            let plain = front + blank;
            let divided = front + blank + "[worktrees]"@ + back;
            &&& !text::has_text(plain, PICK_ACTION@) && !text::has_text(plain, "[worktrees]"@)
                ==> updated_config(plain, key, false) == Ok::<_, error::Fault>((front + lines, true))
            &&& !text::has_text(divided, PICK_ACTION@) && (forall|j: int|
                0 <= j < plain.len() ==> !#[trigger] text::occurs_at(divided, "[worktrees]"@, j))
                ==> updated_config(divided, key, false) == Ok::<_, error::Fault>(
                (front + lines + "\n[worktrees]"@ + back, true),
            )
        }),
{
    let plain = front + blank;
    let divided = front + blank + "[worktrees]"@ + back;
    text::lemma_trim_back_padding(front, blank);
    lemma_binding_text(key);
    let lines = "\n"@ + binding(key);
    text::lemma_find_text(plain, WORKTREES@);
    text::lemma_find_text(divided, WORKTREES@);
    assert(text::trim_back(plain) + "\n"@ + binding(key) =~= front + lines);
    let n = plain.len() as int;
    assert(divided.subrange(n, n + WORKTREES@.len()) =~= WORKTREES@);
    assert(text::occurs_at(divided, WORKTREES@, n));
    if forall|j: int| 0 <= j < n ==> !#[trigger] text::occurs_at(divided, WORKTREES@, j) {
        let i = text::find_text(divided, WORKTREES@)->0;
        assert(i == n) by {
            if i < n {
                assert(text::occurs_at(divided, WORKTREES@, i));
            }
        }
        assert(divided.take(n) =~= plain);
        assert(divided.skip(n) =~= "[worktrees]"@ + back);
        reveal_strlit("\n[worktrees]");
        reveal_strlit("\n");
        reveal_strlit("[worktrees]");
        assert("\n[worktrees]"@ =~= "\n"@ + "[worktrees]"@);
        assert(text::trim_back(plain) + "\n"@ + binding(key) + "\n"@ + divided.skip(n) =~= front
            + lines + "\n[worktrees]"@ + back);
    }
}

/// The lines of a binding, written out.
proof fn lemma_binding_text(key: Seq<char>)
    ensures
        "\n"@ + binding(key) == "\n\n[[keys.command]]\nkey = \""@ + key
            + "\"\ntype = \"plugin_action\"\ncommand = \"kosukeyano.remote-download.pick\"\ndescription = \"pick a remote file to download\"\n"@,
{
    reveal_strlit("\n");
    reveal_strlit("\n[[keys.command]]\nkey = \"");
    reveal_strlit("\n\n[[keys.command]]\nkey = \"");
    reveal_strlit("\"\ntype = \"plugin_action\"\n");
    reveal_strlit("command = \"kosukeyano.remote-download.pick\"");
    reveal_strlit("description = \"pick a remote file to download\"");
    reveal_strlit(
        "\"\ntype = \"plugin_action\"\ncommand = \"kosukeyano.remote-download.pick\"\ndescription = \"pick a remote file to download\"\n",
    );
    let tail = "\"\ntype = \"plugin_action\"\n"@ + PICK_COMMAND@ + "\n"@ + PICK_LINE@ + "\n"@;
    assert(tail
        =~= "\"\ntype = \"plugin_action\"\ncommand = \"kosukeyano.remote-download.pick\"\ndescription = \"pick a remote file to download\"\n"@);
    assert("\n"@ + "\n[[keys.command]]\nkey = \""@ =~= "\n\n[[keys.command]]\nkey = \""@);
    assert("\n"@ + binding(key) =~= ("\n"@ + "\n[[keys.command]]\nkey = \""@) + key + tail);
}

/// A line on a key still binds it where it stands unchanged in another text.
proof fn lemma_key_line_moves(
    s: Seq<char>,
    r: Seq<char>,
    key: Seq<char>,
    at: (int, int, int, int),
    shift: int,
)
    requires
        is_key_line(s, key, at.0, at.1, at.2, at.3),
        at.0 == 0 ==> shift == 0,
        0 <= at.0 + shift,
        at.3 + shift <= r.len(),
        at.3 == s.len() ==> at.3 + shift == r.len(),
        at.3 < s.len() ==> at.3 + shift < r.len(),
        forall|j: int|
            0 <= j < s.len() && at.0 - 1 <= j <= at.3 ==> 0 <= j + shift && s[j] == #[trigger] r[j
                + shift],
    ensures
        binds_key(r, key),
{
    reveal_strlit("key");
    let (start, sign, quote, end) = at;
    let n = quoted(key).len() as int;
    assert(end >= quote + n);
    assert forall|j: int| start - 1 <= j < end && 0 <= j implies s[j] == r[j + shift] by {
        assert(s[j] == r[j + shift]);
    }
    assert(r.subrange(start + shift, start + shift + 3) =~= s.subrange(start, start + 3));
    assert(r.subrange(quote + shift, quote + shift + n) =~= s.subrange(quote, quote + n));
    assert forall|i: int| start + 3 + shift <= i < sign + shift implies text::is_space(
        #[trigger] r[i],
    ) by {
        assert(s[i - shift] == r[(i - shift) + shift]);
    }
    assert forall|i: int| sign + 1 + shift <= i < quote + shift implies text::is_space(
        #[trigger] r[i],
    ) by {
        assert(s[i - shift] == r[(i - shift) + shift]);
    }
    assert forall|i: int| quote + n + shift <= i < end + shift implies text::is_space(
        #[trigger] r[i],
    ) by {
        assert(s[i - shift] == r[(i - shift) + shift]);
    }
    assert(s[sign] == r[sign + shift]);
    if end < s.len() {
        assert(s[end] == r[end + shift]);
    }
    if start > 0 {
        assert(s[start - 1] == r[(start - 1) + shift]);
    }
    assert(is_key_line(r, key, start + shift, sign + shift, quote + shift, end + shift));
}

/// Exchanging a line that begins with a word and a blank leaves the lines on keys as they are.
proof fn lemma_replacement_keeps_keys(
    s: Seq<char>,
    from: Seq<char>,
    to: Seq<char>,
    key: Seq<char>,
    word: int,
)
    requires
        text::all_in(key, |c: char| is_key_char(c)),
        binds_key(s, key),
        0 < word < from.len(),
        from[word] == ' ',
        forall|j: int| 0 <= j < word ==> 'a' <= #[trigger] from[j] <= 'z',
        from[0] != 'k' && from[0] != 'e' && from[0] != 'y',
        !from.contains('\n'),
    ensures
        binds_key(text::replace_first(s, from, to), key),
{
    reveal_strlit("key");
    let r = text::replace_first(s, from, to);
    text::lemma_find_text(s, from);
    let (start, sign, quote, end) = choose|start: int, sign: int, quote: int, end: int|
        #[trigger] is_key_line(s, key, start, sign, quote, end);
    match text::find_text(s, from) {
        None => {},
        Some(i) => {
            let n = key.len() as int;
            let close = quote + n + 1;
            lemma_occurrence_chars(s, from, i);
            lemma_occurrence_chars(s, "key"@, start);
            lemma_occurrence_chars(s, quoted(key), quote);
            assert(s[i + 0] == from[0]);
            assert(s[i + word] == from[word]);
            assert(s[start + 0] == "key"@[0] && s[start + 1] == "key"@[1] && s[start + 2]
                == "key"@[2]);
            assert(s[quote + 0] == quoted(key)[0]);
            assert(s[quote + (n + 1)] == quoted(key)[n + 1]);
            assert forall|j: int| quote < j < close implies is_key_char(#[trigger] s[j]) by {
                assert(s[quote + (j - quote)] == quoted(key)[j - quote]);
                assert(is_key_char(key[j - quote - 1]));
            }
            assert(!(start <= i < end)) by {
                if quote < i < close {
                    let p = i + word;
                    if p < close {
                        assert(is_key_char(s[p]));
                    } else if p > close {
                        assert(s[i + (close - i)] == from[close - i]);
                    }
                }
            }
            if i < start {
                if start - 1 < i + from.len() {
                    assert(s[i + (start - 1 - i)] == from[start - 1 - i]);
                    assert(from.contains(from[start - 1 - i]));
                }
                let shift = to.len() - from.len();
                assert forall|j: int| 0 <= j < s.len() && start - 1 <= j <= end implies 0 <= j
                    + shift && s[j] == #[trigger] r[j + shift] by {}
                lemma_key_line_moves(s, r, key, (start, sign, quote, end), shift);
            } else {
                assert(end < s.len());
                if i == end {
                    assert(from.contains(from[0]));
                }
                assert forall|j: int| 0 <= j < s.len() && start - 1 <= j <= end implies 0 <= j + 0
                    && s[j] == #[trigger] r[j + 0] by {}
                lemma_key_line_moves(s, r, key, (start, sign, quote, end), 0);
            }
        },
    }
}

/// A key that is bound stays bound, and a key that was not is bound afterwards: whatever is done to a
/// configuration that is not up to date, the key opens something in it.
pub proof fn law_key_is_bound_afterwards(content: Seq<char>, key: Seq<char>)
    requires
        text::all_in(key, |c: char| is_key_char(c)),
        updated_config(content, key, binds_key(content, key)) is Ok,
    ensures
        binds_key(content, key) || !text::has_text(content, PICK_ACTION@) ==> binds_key(
            updated_config(content, key, binds_key(content, key))->Ok_0.0,
            key,
        ),
{
    reveal_strlit("command = \"kosukeyano.remote-download.download\"");
    reveal_strlit("description = \"download selected remote file\"");
    assert(!LEGACY_COMMAND@.contains('\n'));
    assert(!LEGACY_LINE@.contains('\n'));
    if binds_key(content, key) {
        if text::has_text(content, PICK_ACTION@) {
            lemma_replacement_keeps_keys(content, LEGACY_LINE@, PICK_LINE@, key, 11);
        } else {
            lemma_replacement_keeps_keys(content, LEGACY_COMMAND@, PICK_COMMAND@, key, 7);
            let renamed = text::replace_first(content, LEGACY_COMMAND@, PICK_COMMAND@);
            lemma_replacement_keeps_keys(renamed, LEGACY_LINE@, PICK_LINE@, key, 11);
        }
    } else if !text::has_text(content, PICK_ACTION@) {
        law_binding_binds_the_key(content, key);
    }
}

/// A line binds a key that says `key`, an equals sign and the key in quotation marks, with any white
/// space around the sign and at the end of the line, wherever in the configuration it stands.
pub proof fn law_key_lines_are_recognised(
    front: Seq<char>,
    key: Seq<char>,
    first: Seq<char>,
    second: Seq<char>,
    third: Seq<char>,
    back: Seq<char>,
)
    requires
        front.len() == 0 || front.last() == '\n',
        back.len() == 0 || back[0] == '\n',
        text::all_in(first, |c: char| text::is_space(c)),
        text::all_in(second, |c: char| text::is_space(c)),
        text::all_in(third, |c: char| text::is_space(c)),
    ensures
        binds_key(
            front + "key"@ + first + "="@ + second + "\""@ + key + "\""@ + third + back,
            key,
        ),
{
    reveal_strlit("key");
    reveal_strlit("=");
    reveal_strlit("\"");
    let content = front + "key"@ + first + "="@ + second + "\""@ + key + "\""@ + third + back;
    let start = front.len() as int;
    let sign = start + 3 + first.len();
    let quote = sign + 1 + second.len();
    let end = quote + key.len() + 2 + third.len();
    assert(content.subrange(start, start + 3) =~= "key"@);
    assert(content.subrange(quote, quote + quoted(key).len()) =~= quoted(key));
    assert forall|i: int| start + 3 <= i < sign implies text::is_space(#[trigger] content[i]) by {
        assert(content[i] == first[i - start - 3]);
    }
    assert forall|i: int| sign + 1 <= i < quote implies text::is_space(#[trigger] content[i]) by {
        assert(content[i] == second[i - sign - 1]);
    }
    assert forall|i: int| quote + quoted(key).len() <= i < end implies text::is_space(
        #[trigger] content[i],
    ) by {
        assert(content[i] == third[i - quote - key.len() - 2]);
    }
    if start > 0 {
        assert(content[start - 1] == front.last());
    }
    if back.len() > 0 {
        assert(content[end] == back[0]);
    }
    assert(content[sign] == '=');
    assert(is_key_line(content, key, start, sign, quote, end));
}

/// A configuration binds no key that it does not name in quotation marks, and none without a line
/// that begins with `key`.
pub proof fn law_keys_are_bound_by_lines_that_name_them(content: Seq<char>, key: Seq<char>)
    requires
        binds_key(content, key),
    ensures
        text::has_text(content, "\""@ + key + "\""@),
        text::begins_with(content, "key"@) || text::has_text(content, "\nkey"@),
{
    reveal_strlit("key");
    reveal_strlit("\nkey");
    reveal_strlit("\"");
    let (start, sign, quote, end) = choose|start: int, sign: int, quote: int, end: int|
        #[trigger] is_key_line(content, key, start, sign, quote, end);
    assert(quoted(key) =~= "\""@ + key + "\""@);
    assert(text::occurs_at(content, "\""@ + key + "\""@, quote));
    if start == 0 {
        assert(text::begins_with(content, "key"@));
    } else {
        assert(content.subrange(start - 1, start + 3) =~= "\nkey"@) by {
            assert(content.subrange(start, start + 3)[0] == 'k');
            assert(content.subrange(start, start + 3)[1] == 'e');
            assert(content.subrange(start, start + 3)[2] == 'y');
        }
        assert(text::occurs_at(content, "\nkey"@, start - 1));
    }
}

/// A key is made of letters, digits, plus signs, underscores and hyphens; any other character makes
/// it unsupported, wherever it stands.
pub proof fn law_keys_are_made_of_letters_digits_and_signs(
    content: Seq<char>,
    key: Seq<char>,
    found: bool,
)
    requires
        !text::has_text(content, "kosukeyano.remote-download.pick"@),
    ensures
        ({
            let supported = forall|i: int|
                0 <= i < key.len() ==> 'a' <= #[trigger] key[i] <= 'z' || 'A' <= key[i] <= 'Z'
                    || '0' <= key[i] <= '9' || key[i] == '+' || key[i] == '_' || key[i] == '-';
            updated_config(content, key, found) == Err::<(Seq<char>, bool), error::Fault>(
                error::fault(ErrorKind::UnsupportedKey),
            ) <==> !supported
        }),
{
    let supported = forall|i: int|
        0 <= i < key.len() ==> 'a' <= #[trigger] key[i] <= 'z' || 'A' <= key[i] <= 'Z' || '0'
            <= key[i] <= '9' || key[i] == '+' || key[i] == '_' || key[i] == '-';
    if supported {
        assert forall|i: int| 0 <= i < key.len() implies is_key_char(#[trigger] key[i]) by {}
        assert(text::all_in(key, |c: char| is_key_char(c)));
    } else {
        let i = choose|i: int|
            0 <= i < key.len() && !('a' <= #[trigger] key[i] <= 'z' || 'A' <= key[i] <= 'Z' || '0'
                <= key[i] <= '9' || key[i] == '+' || key[i] == '_' || key[i] == '-');
        assert(!is_key_char(key[i]));
        assert(!(|c: char| is_key_char(c))(key[i]));
    }
}

/// The line that opened the direct download opens the picker afterwards, and the line that described
/// it describes the picker; every other line of the configuration stays as it was.
pub proof fn law_old_lines_are_written_anew(
    front: Seq<char>,
    middle: Seq<char>,
    back: Seq<char>,
    key: Seq<char>,
)
    requires
        text::all_in(key, |c: char| is_key_char(c)),
    ensures
        ({
            let old_command = "command = \"kosukeyano.remote-download.download\""@;
            let new_command = "command = \"kosukeyano.remote-download.pick\""@;
            let old_line = "description = \"download selected remote file\""@;
            let new_line = "description = \"pick a remote file to download\""@;
            let head = front + old_command + middle;
            let content = head + old_line + back;
            !text::has_text(content, "kosukeyano.remote-download.pick"@) && (forall|j: int|
                0 <= j < front.len() ==> !#[trigger] text::occurs_at(content, old_command, j))
                && (forall|j: int|
                0 <= j < head.len() ==> !#[trigger] text::occurs_at(content, old_line, j))
                ==> updated_config(content, key, true) == Ok::<_, error::Fault>(
                (front + new_command + middle + new_line + back, true),
            )
        }),
{
    law_upgrade_exchanges_two_lines_only(front, middle, back, key);
}

/// It is asked whether a key is bound already wherever the picker is not bound and the key is one: a
/// binding of the session is never passed over.
pub proof fn law_bound_keys_are_asked_for(content: Seq<char>, key: Seq<char>)
    ensures
        asks_for_key(content, key) <==> !text::has_text(content, "kosukeyano.remote-download.pick"@)
            && forall|i: int|
            0 <= i < key.len() ==> 'a' <= #[trigger] key[i] <= 'z' || 'A' <= key[i] <= 'Z' || '0'
                <= key[i] <= '9' || key[i] == '+' || key[i] == '_' || key[i] == '-',
{
    let supported = forall|i: int|
        0 <= i < key.len() ==> 'a' <= #[trigger] key[i] <= 'z' || 'A' <= key[i] <= 'Z' || '0'
            <= key[i] <= '9' || key[i] == '+' || key[i] == '_' || key[i] == '-';
    if supported {
        assert forall|i: int| 0 <= i < key.len() implies is_key_char(#[trigger] key[i]) by {}
        assert(text::all_in(key, |c: char| is_key_char(c)));
    } else {
        let i = choose|i: int|
            0 <= i < key.len() && !('a' <= #[trigger] key[i] <= 'z' || 'A' <= key[i] <= 'Z' || '0'
                <= key[i] <= '9' || key[i] == '+' || key[i] == '_' || key[i] == '-');
        assert(!is_key_char(key[i]));
        assert(!(|c: char| is_key_char(c))(key[i]));
    }
}

} // verus!
