//! Which file is meant by what is selected, clicked or shown.
use crate::encoding;
use crate::encoding::percent_decode;
use crate::error;
use crate::error::{ErrorKind, TransferError};
use crate::http;
use crate::json;
use crate::json::JsonObject;
use crate::paths;
use crate::paths::{expand_home, expand_home_if_known, joined};
use crate::text;
use crate::text::{
    all_digits, chars_of, last_position_of, lowered, number_of, position_of, position_of_text,
    same_chars, split_on, starts_with, text_of, trimmed,
};
use vstd::prelude::*;
use vstd::slice::slice_subrange;

verus! {

// ---------------------------------------------------------------------------------------------
// Markup

/// What a Markdown link leads to; any other text as it is.
pub open spec fn without_link(s: Seq<char>) -> Seq<char> {
    if s.len() > 0 && s[0] == '[' && s.last() == ')' {
        match text::find_text(s, "]("@) {
            Some(i) => text::trim(s.subrange(i + 2, s.len() - 1)),
            None => s,
        }
    } else {
        s
    }
}

/// A pair of characters that a path may be quoted with.
pub open spec fn is_quoting(first: char, last: char) -> bool {
    (first == '`' && last == '`') || (first == '\'' && last == '\'') || (first == '"' && last == '"')
        || (first == '<' && last == '>')
}

/// What is quoted; any other text as it is.
pub open spec fn without_quotes(s: Seq<char>) -> Seq<char> {
    if s.len() >= 2 && is_quoting(s[0], s.last()) {
        text::trim(s.subrange(1, s.len() - 1))
    } else {
        s
    }
}

/// A path without the markup around it.
pub open spec fn without_markup(s: Seq<char>) -> Seq<char> {
    without_quotes(without_link(text::trim(s)))
}

/// Takes the markup off a path.
pub fn strip_path_markup(value: &[char]) -> (r: &[char])
    ensures
        r@ == without_markup(value@),
{
    let mut candidate = trimmed(value);
    if candidate.len() > 0 && candidate[0] == '[' && candidate[candidate.len() - 1] == ')' {
        let middle = chars_of("](");
        proof {
            reveal_strlit("](");
            text::lemma_find_text(candidate@, "]("@);
        }
        match position_of_text(candidate, &middle) {
            Some(i) => {
                assert(candidate@[i + 1] == '(') by {
                    assert(text::occurs_at(candidate@, "]("@, i as int));
                    assert(candidate@.subrange(i as int, i + 2)[1] == "]("@[1]);
                }
                candidate = trimmed(slice_subrange(candidate, i + 2, candidate.len() - 1));
            },
            None => {},
        }
    }
    if candidate.len() >= 2 {
        let first = candidate[0];
        let last = candidate[candidate.len() - 1];
        if (first == '`' && last == '`') || (first == '\'' && last == '\'') || (first == '"' && last
            == '"') || (first == '<' && last == '>') {
            candidate = trimmed(slice_subrange(candidate, 1, candidate.len() - 1));
        }
    }
    candidate
}

// ---------------------------------------------------------------------------------------------
// File links

/// The host and the path behind `file://`.
pub open spec fn host_and_path(remainder: Seq<char>) -> (Seq<char>, Seq<char>) {
    match text::first_index(remainder, '/') {
        Some(i) => (remainder.take(i), remainder.skip(i)),
        None => (remainder, seq![]),
    }
}

/// A host is one of the given ones, whatever the case of its letters.
pub open spec fn is_local(host: Seq<char>, hostnames: Seq<Seq<char>>) -> bool {
    exists|i: int|
        0 <= i < hostnames.len() && text::lower(#[trigger] hostnames[i]) == text::lower(host)
}

/// The path that a text means: a file link of this host is decoded, any other text is a path.
pub open spec fn link_path(value: Seq<char>, hostnames: Seq<Seq<char>>) -> Result<
    Seq<char>,
    error::Fault,
> {
    if text::begins_with(value, "file://"@) {
        let (host, path) = host_and_path(value.skip(7));
        if !is_local(host, hostnames) {
            Err(error::fault_about(ErrorKind::ForeignHost, host))
        } else {
            encoding::percent_text(path)
        }
    } else {
        Ok(value)
    }
}

fn local(host: &[char], hostnames: &Vec<String>) -> (r: bool)
    ensures
        r == is_local(host@, http::texts_of(hostnames@)),
{
    let wanted = lowered(host);
    let ghost names = http::texts_of(hostnames@);
    let mut i: usize = 0;
    while i < hostnames.len()
        invariant
            i <= hostnames@.len(),
            names == http::texts_of(hostnames@),
            wanted@ == text::lower(host@),
            forall|j: int| 0 <= j < i ==> text::lower(#[trigger] names[j]) != text::lower(host@),
        decreases hostnames@.len() - i,
    {
        let name = chars_of(hostnames[i].as_str());
        let name = lowered(&name);
        if same_chars(&name, &wanted) {
            assert(text::lower(names[i as int]) == text::lower(host@));
            return true;
        }
        i += 1;
    }
    false
}

/// The path that a text means on a host of the given names.
pub fn path_from_file_url(value: &[char], hostnames: &Vec<String>) -> (r: Result<
    String,
    TransferError,
>)
    ensures
        error::text_result(r) == link_path(value@, http::texts_of(hostnames@)),
{
    let scheme = chars_of("file://");
    proof {
        reveal_strlit("file://");
    }
    if !starts_with(value, &scheme) {
        return Ok(text_of(value));
    }
    let remainder = slice_subrange(value, 7, value.len());
    assert(remainder@ =~= value@.skip(7));
    proof {
        text::lemma_index_from(remainder@, '/', 0);
    }
    let end: usize = match position_of(remainder, '/') {
        Some(i) => i,
        None => remainder.len(),
    };
    let host = slice_subrange(remainder, 0, end);
    let path = slice_subrange(remainder, end, remainder.len());
    proof {
        assert(remainder@.take(remainder@.len() as int) =~= remainder@);
        assert(host@ =~= host_and_path(remainder@).0);
        assert(path@ =~= host_and_path(remainder@).1);
    }
    if !local(host, hostnames) {
        return Err(TransferError::about(ErrorKind::ForeignHost, text_of(host)));
    }
    let path = text_of(path);
    percent_decode(path.as_str())
}

/// The names of this host: the empty one and `localhost`, the one in the environment, and those
/// that the system reports.
pub open spec fn host_names(variable: Option<Seq<char>>, reported: Seq<Seq<char>>) -> Seq<
    Seq<char>,
> {
    let known = match variable {
        Some(name) => seq![""@, "localhost"@, name],
        None => seq![""@, "localhost"@],
    };
    known + reported.map_values(|name: Seq<char>| text::trim(name))
}

/// Lists the names of this host.
pub fn current_hostnames(variable: Option<&str>, reported: &Vec<String>) -> (r: Vec<String>)
    ensures
        http::texts_of(r@) == host_names(
            paths::text_option(variable),
            http::texts_of(reported@),
        ),
{
    let mut names: Vec<String> = Vec::new();
    names.push("".to_owned());
    names.push("localhost".to_owned());
    match variable {
        Some(name) => {
            names.push(name.to_owned());
        },
        None => {},
    }
    let ghost known = match paths::text_option(variable) {
        Some(name) => seq![""@, "localhost"@, name],
        None => seq![""@, "localhost"@],
    };
    let ghost all = http::texts_of(reported@).map_values(|name: Seq<char>| text::trim(name));
    assert(http::texts_of(names@) =~= known + all.take(0));
    let mut i: usize = 0;
    while i < reported.len()
        invariant
            i <= reported@.len(),
            all == http::texts_of(reported@).map_values(|name: Seq<char>| text::trim(name)),
            http::texts_of(names@) == known + all.take(i as int),
        decreases reported@.len() - i,
    {
        let chars = chars_of(reported[i].as_str());
        let ghost before = names@;
        names.push(text_of(trimmed(&chars)));
        proof {
            assert(all[i as int] == text::trim(reported@[i as int]@));
            assert(http::texts_of(names@) =~= http::texts_of(before).push(all[i as int]));
            assert(http::texts_of(names@) =~= known + all.take(i + 1));
        }
        i += 1;
    }
    assert(all.take(i as int) =~= all);
    names
}

// ---------------------------------------------------------------------------------------------
// Line numbers

/// A path without the line, or line and column, behind it.
pub open spec fn without_line(value: Seq<char>) -> Option<Seq<char>> {
    match text::last_index(value, ':') {
        None => None,
        Some(i) => if !text::all_in(value.skip(i + 1), |c: char| text::is_digit(c)) {
            None
        } else {
            let front = value.take(i);
            match text::last_index(front, ':') {
                Some(j) => if text::all_in(front.skip(j + 1), |c: char| text::is_digit(c)) {
                    Some(front.take(j))
                } else {
                    Some(front)
                },
                None => Some(front),
            }
        },
    }
}

/// Takes the line, or line and column, off a path.
pub fn strip_line_suffix(value: &[char]) -> (r: Option<&[char]>)
    ensures
        match r {
            Some(path) => without_line(value@) == Some(path@),
            None => without_line(value@) is None,
        },
{
    proof {
        text::lemma_last_index(value@, ':');
    }
    let length: usize = value.len();
    match last_position_of(value, ':') {
        None => None,
        Some(i) => {
            let last = slice_subrange(value, i + 1, length);
            let front = slice_subrange(value, 0, i);
            assert(last@ =~= value@.skip(i + 1));
            assert(front@ =~= value@.take(i as int));
            if !all_digits(last) {
                return None;
            }
            proof {
                text::lemma_last_index(front@, ':');
            }
            match last_position_of(front, ':') {
                Some(j) => {
                    let line = slice_subrange(front, j + 1, front.len());
                    assert(line@ =~= front@.skip(j + 1));
                    if all_digits(line) {
                        let path = slice_subrange(front, 0, j);
                        assert(path@ =~= front@.take(j as int));
                        Some(path)
                    } else {
                        Some(front)
                    }
                },
                None => Some(front),
            }
        },
    }
}

// ---------------------------------------------------------------------------------------------
// Asking whether a path exists

/// A probe may have given this answer about a path.
pub open spec fn answered<F: Fn(&str) -> bool>(probe: F, path: Seq<char>, answer: bool) -> bool {
    exists|text: &str| #[trigger] text@ == path && call_ensures(probe, (text,), answer)
}

/// The first of some paths that a probe affirms.
pub open spec fn is_first_existing<F: Fn(&str) -> bool>(
    probe: F,
    paths: Seq<Seq<char>>,
    found: Option<int>,
) -> bool {
    match found {
        Some(k) => 0 <= k < paths.len() && answered(probe, paths[k], true) && forall|j: int|
            0 <= j < k ==> answered(probe, #[trigger] paths[j], false),
        None => forall|j: int| 0 <= j < paths.len() ==> answered(probe, #[trigger] paths[j], false),
    }
}

/// Finds the first of some paths that a probe affirms.
pub fn first_existing<F: Fn(&str) -> bool>(paths: &Vec<String>, probe: &F) -> (r: Option<usize>)
    requires
        forall|text: &str| call_requires(*probe, (text,)),
    ensures
        is_first_existing(
            *probe,
            http::texts_of(paths@),
            match r {
                Some(k) => Some(k as int),
                None => None,
            },
        ),
{
    let ghost all = http::texts_of(paths@);
    let mut i: usize = 0;
    while i < paths.len()
        invariant
            i <= paths@.len(),
            all == http::texts_of(paths@),
            forall|text: &str| call_requires(*probe, (text,)),
            forall|j: int| 0 <= j < i ==> answered(*probe, #[trigger] all[j], false),
        decreases paths@.len() - i,
    {
        let path = paths[i].as_str();
        let answer = probe(path);
        assert(answered(*probe, all[i as int], answer)) by {
            assert(path@ == all[i as int]);
        }
        if answer {
            return Some(i);
        }
        i += 1;
    }
    None
}

// ---------------------------------------------------------------------------------------------
// The selected path

/// The lines of a text that are not blank, without white space around them.
pub open spec fn filled_lines(lines: Seq<Seq<char>>) -> Seq<Seq<char>>
    decreases lines.len(),
{
    if lines.len() == 0 {
        seq![]
    } else {
        let rest = filled_lines(lines.drop_last());
        let line = text::trim(lines.last());
        if line.len() == 0 {
            rest
        } else {
            rest.push(line)
        }
    }
}

/// The one line that is selected: the clicked link, or else the selected text, must have exactly
/// one line that is not blank.
pub open spec fn selected_line(context: Map<Seq<char>, json::JsonFieldModel>) -> Result<
    Seq<char>,
    error::Fault,
> {
    match json::either_text(context, "clicked_url"@, "selected_text"@) {
        None => Err(error::fault(ErrorKind::NothingSelected)),
        Some(raw) => if text::trim(raw).len() == 0 {
            Err(error::fault(ErrorKind::NothingSelected))
        } else {
            let filled = filled_lines(text::split(raw, '\n'));
            if filled.len() == 1 {
                Ok(filled[0])
            } else {
                Err(error::fault(ErrorKind::NotOneLine))
            }
        },
    }
}

fn line_of_context(context: &JsonObject) -> (r: Result<Vec<char>, TransferError>)
    ensures
        match r {
            Ok(line) => selected_line(context@) == Ok::<Seq<char>, error::Fault>(line@),
            Err(error) => selected_line(context@) == Err::<Seq<char>, error::Fault>(error@),
        },
{
    let raw = match context.either_text("clicked_url", "selected_text") {
        None => return Err(TransferError::new(ErrorKind::NothingSelected)),
        Some(raw) => chars_of(raw),
    };
    if trimmed(&raw).len() == 0 {
        return Err(TransferError::new(ErrorKind::NothingSelected));
    }
    let pieces = split_on(&raw, '\n');
    let ghost all = text::split(raw@, '\n');
    let mut filled: Vec<Vec<char>> = Vec::new();
    let mut i: usize = 0;
    while i < pieces.len()
        invariant
            i <= pieces@.len(),
            pieces@.len() == all.len(),
            forall|j: int| 0 <= j < pieces@.len() ==> (#[trigger] pieces@[j])@ == all[j],
            filled@.len() == filled_lines(all.take(i as int)).len(),
            forall|j: int|
                0 <= j < filled@.len() ==> (#[trigger] filled@[j])@ == filled_lines(
                    all.take(i as int),
                )[j],
        decreases pieces@.len() - i,
    {
        proof {
            assert(all.take(i + 1).drop_last() =~= all.take(i as int));
            assert(all.take(i + 1).last() == pieces@[i as int]@);
        }
        let line = trimmed(&pieces[i]);
        if line.len() > 0 {
            let mut kept: Vec<char> = Vec::new();
            text::push_all(&mut kept, line);
            assert(kept@ =~= line@);
            filled.push(kept);
        }
        i += 1;
    }
    assert(all.take(i as int) =~= all);
    if filled.len() != 1 {
        return Err(TransferError::new(ErrorKind::NotOneLine));
    }
    let mut line: Vec<char> = Vec::new();
    text::push_all(&mut line, &filled[0]);
    assert(line@ =~= filled@[0]@);
    Ok(line)
}

/// What is selected is a file link, so that the names of this host matter.
pub open spec fn selects_link(context: Map<Seq<char>, json::JsonFieldModel>) -> bool {
    selected_line(context) matches Ok(line) && text::begins_with(
        without_markup(line),
        "file://"@,
    )
}

pub fn selects_file_url(context: &JsonObject) -> (r: bool)
    ensures
        r == selects_link(context@),
{
    match line_of_context(context) {
        Err(_) => false,
        Ok(line) => {
            let scheme = chars_of("file://");
            starts_with(strip_path_markup(&line), &scheme)
        },
    }
}

/// What to look for: the paths to try in turn, and the error if none of them exists.
pub struct Selection {
    pub paths: Vec<String>,
    pub failure: TransferError,
}

/// The model of what to look for.
#[verifier::ext_equal]
pub struct SelectionModel {
    pub paths: Seq<Seq<char>>,
    pub failure: error::Fault,
}

impl View for Selection {
    type V = SelectionModel;

    open spec fn view(&self) -> SelectionModel {
        SelectionModel { paths: http::texts_of(self.paths@), failure: self.failure@ }
    }
}

/// The paths to try for a candidate below a directory: the candidate itself, and the candidate
/// without a line number. The error is about the path that is tried last; a home directory that is
/// needed and unknown ends the trying.
pub open spec fn paths_to_try(base: Seq<char>, candidate: Seq<char>, home: Option<Seq<char>>) ->
    SelectionModel {
    match paths::expanded(candidate, home) {
        Err(fault) => SelectionModel { paths: seq![], failure: fault },
        Ok(first) => {
            let first = paths::join(base, first);
            match without_line(candidate) {
                None => SelectionModel {
                    paths: seq![first],
                    failure: error::fault_about(ErrorKind::PathNotFound, first),
                },
                Some(shorter) => match paths::expanded(shorter, home) {
                    Err(fault) => SelectionModel { paths: seq![first], failure: fault },
                    Ok(second) => {
                        let second = paths::join(base, second);
                        SelectionModel {
                            paths: seq![first, second],
                            failure: error::fault_about(ErrorKind::PathNotFound, second),
                        }
                    },
                },
            }
        },
    }
}

fn selection_below(base: &str, candidate: &str, home: Option<&str>) -> (r: Selection)
    ensures
        r@ == paths_to_try(base@, candidate@, paths::text_option(home)),
{
    let mut paths: Vec<String> = Vec::new();
    let first = match expand_home(candidate, home) {
        Err(error) => {
            let r = Selection { paths, failure: error };
            assert(r@ =~= paths_to_try(base@, candidate@, paths::text_option(home)));
            return r;
        },
        Ok(first) => joined(base, first.as_str()),
    };
    let chars = chars_of(candidate);
    let shown = first.as_str().to_owned();
    paths.push(first);
    match strip_line_suffix(&chars) {
        None => {
            let r = Selection {
                paths,
                failure: TransferError::about(ErrorKind::PathNotFound, shown),
            };
            assert(r@ =~= paths_to_try(base@, candidate@, paths::text_option(home)));
            r
        },
        Some(shorter) => {
            let shorter = text_of(shorter);
            match expand_home(shorter.as_str(), home) {
                Err(error) => {
                    let r = Selection { paths, failure: error };
                    assert(r@ =~= paths_to_try(base@, candidate@, paths::text_option(home)));
                    r
                },
                Ok(second) => {
                    let second = joined(base, second.as_str());
                    let shown = second.as_str().to_owned();
                    paths.push(second);
                    let r = Selection {
                        paths,
                        failure: TransferError::about(ErrorKind::PathNotFound, shown),
                    };
                    assert(r@ =~= paths_to_try(base@, candidate@, paths::text_option(home)));
                    r
                },
            }
        },
    }
}

/// The directory that a selected path is relative to: the pane's, or else the workspace's, or else
/// the current one. That there is no current directory is an error in any case.
pub open spec fn base_directory(
    context: Map<Seq<char>, json::JsonFieldModel>,
    home: Option<Seq<char>>,
    current: Result<Seq<char>, Seq<char>>,
) -> Result<Seq<char>, error::Fault> {
    let own = match json::either_text(context, "focused_pane_cwd"@, "workspace_cwd"@) {
        Some(directory) => match paths::expanded(directory, home) {
            Ok(directory) => Ok(Some(directory)),
            Err(fault) => Err(fault),
        },
        None => Ok(None),
    };
    match own {
        Err(fault) => Err(fault),
        Ok(own) => match current {
            Err(detail) => Err(error::fault_about(ErrorKind::NoCurrentDirectory, detail)),
            Ok(current) => match own {
                Some(directory) => Ok(directory),
                None => Ok(current),
            },
        },
    }
}

/// The model of the current directory, or of the words why there is none.
pub open spec fn current_of(current: Result<&str, &str>) -> Result<Seq<char>, Seq<char>> {
    match current {
        Ok(directory) => Ok(directory@),
        Err(detail) => Err(detail@),
    }
}

fn base_of(context: &JsonObject, home: Option<&str>, current: Result<&str, &str>) -> (r: Result<
    String,
    TransferError,
>)
    ensures
        error::text_result(r) == base_directory(
            context@,
            paths::text_option(home),
            current_of(current),
        ),
{
    let own = match context.either_text("focused_pane_cwd", "workspace_cwd") {
        Some(directory) => match expand_home(directory, home) {
            Ok(directory) => Some(directory),
            Err(error) => return Err(error),
        },
        None => None,
    };
    match current {
        Err(detail) => Err(
            TransferError::about(ErrorKind::NoCurrentDirectory, detail.to_owned()),
        ),
        Ok(current) => match own {
            Some(directory) => Ok(directory),
            None => Ok(current.to_owned()),
        },
    }
}

/// What to look for, given the path that the selected line means.
pub open spec fn selection_of(
    context: Map<Seq<char>, json::JsonFieldModel>,
    candidate: Result<Seq<char>, error::Fault>,
    home: Option<Seq<char>>,
    current: Result<Seq<char>, Seq<char>>,
) -> Result<SelectionModel, error::Fault> {
    match candidate {
        Err(fault) => Err(fault),
        Ok(candidate) => if candidate.contains('\0') {
            Err(error::fault(ErrorKind::NullInPath))
        } else {
            match base_directory(context, home, current) {
                Err(fault) => Err(fault),
                Ok(base) => Ok(paths_to_try(base, candidate, home)),
            }
        },
    }
}

/// The model of a result that holds what to look for.
pub open spec fn selection_result(r: Result<Selection, TransferError>) -> Result<
    SelectionModel,
    error::Fault,
> {
    match r {
        Ok(selection) => Ok(selection@),
        Err(error) => Err(error@),
    }
}

/// Decides what to look for, given the path that the selected line means.
pub fn select_candidate(
    context: &JsonObject,
    candidate: Result<String, TransferError>,
    home: Option<&str>,
    current: Result<&str, &str>,
) -> (r: Result<Selection, TransferError>)
    ensures
        selection_result(r) == selection_of(
            context@,
            error::text_result(candidate),
            paths::text_option(home),
            current_of(current),
        ),
{
    let candidate = match candidate {
        Err(error) => return Err(error),
        Ok(candidate) => candidate,
    };
    let chars = chars_of(candidate.as_str());
    proof {
        text::lemma_index_from(chars@, '\0', 0);
        if text::first_index(chars@, '\0') is Some {
            assert(chars@.contains(chars@[text::first_index(chars@, '\0')->0]));
        }
    }
    if position_of(&chars, '\0').is_some() {
        return Err(TransferError::new(ErrorKind::NullInPath));
    }
    match base_of(context, home, current) {
        Err(error) => Err(error),
        Ok(base) => Ok(selection_below(base.as_str(), candidate.as_str(), home)),
    }
}

/// What to look for, given the context of the action.
pub open spec fn selection(
    context: Map<Seq<char>, json::JsonFieldModel>,
    home: Option<Seq<char>>,
    current: Result<Seq<char>, Seq<char>>,
    hostnames: Seq<Seq<char>>,
) -> Result<SelectionModel, error::Fault> {
    match selected_line(context) {
        Err(fault) => Err(fault),
        Ok(line) => selection_of(
            context,
            link_path(without_markup(line), hostnames),
            home,
            current,
        ),
    }
}

/// Decides what to look for.
pub fn select_paths(
    context: &JsonObject,
    home: Option<&str>,
    current: Result<&str, &str>,
    hostnames: &Vec<String>,
) -> (r: Result<Selection, TransferError>)
    ensures
        selection_result(r) == selection(
            context@,
            paths::text_option(home),
            current_of(current),
            http::texts_of(hostnames@),
        ),
{
    let line = match line_of_context(context) {
        Err(error) => return Err(error),
        Ok(line) => line,
    };
    let candidate = path_from_file_url(strip_path_markup(&line), hostnames);
    select_candidate(context, candidate, home, current)
}

/// A path is the one that is meant: the first of those to try that a probe affirms.
pub open spec fn is_resolved<F: Fn(&str) -> bool>(
    probe: F,
    selection: Result<SelectionModel, error::Fault>,
    result: Result<Seq<char>, error::Fault>,
) -> bool {
    match selection {
        Err(fault) => result == Err::<Seq<char>, error::Fault>(fault),
        Ok(selection) => match result {
            Ok(path) => exists|k: int| #[trigger]
                is_first_existing(probe, selection.paths, Some(k)) && path == selection.paths[k],
            Err(fault) => fault == selection.failure && is_first_existing(
                probe,
                selection.paths,
                None,
            ),
        },
    }
}

/// Resolves the path that is selected, asking which paths exist.
pub fn resolve_path_from_context<F: Fn(&str) -> bool>(
    context: &JsonObject,
    home: Option<&str>,
    current: Result<&str, &str>,
    hostnames: &Vec<String>,
    probe: &F,
) -> (r: Result<String, TransferError>)
    requires
        forall|text: &str| call_requires(*probe, (text,)),
    ensures
        is_resolved(
            *probe,
            selection(
                context@,
                paths::text_option(home),
                current_of(current),
                http::texts_of(hostnames@),
            ),
            error::text_result(r),
        ),
{
    let selected = select_paths(context, home, current, hostnames);
    let ghost model = selection_result(selected);
    match selected {
        Err(error) => Err(error),
        Ok(selection) => match first_existing(&selection.paths, probe) {
            Some(k) => {
                let path = selection.paths[k].as_str().to_owned();
                proof {
                    let found: Option<int> = Some(k as int);
                    assert(is_first_existing(*probe, model->Ok_0.paths, found));
                }
                Ok(path)
            },
            None => Err(selection.failure),
        },
    }
}

// ---------------------------------------------------------------------------------------------
// Paths that are shown

/// A text without the number behind its last colon.
pub open spec fn without_number(s: Seq<char>) -> Option<Seq<char>> {
    match text::last_index(s, ':') {
        Some(i) => match text::parse_number(s.skip(i + 1), u64::MAX as nat) {
            Some(_) => Some(s.take(i)),
            None => None,
        },
        None => None,
    }
}

fn number_stripped(s: &[char]) -> (r: Option<&[char]>)
    ensures
        match r {
            Some(front) => without_number(s@) == Some(front@),
            None => without_number(s@) is None,
        },
{
    proof {
        text::lemma_last_index(s@, ':');
    }
    let length: usize = s.len();
    match last_position_of(s, ':') {
        Some(i) => {
            let last = slice_subrange(s, i + 1, length);
            assert(last@ =~= s@.skip(i + 1));
            match number_of(last, u64::MAX) {
                Some(_) => {
                    let front = slice_subrange(s, 0, i);
                    assert(front@ =~= s@.take(i as int));
                    Some(front)
                },
                None => None,
            }
        },
        None => None,
    }
}

/// What a shown path may mean: the text itself, without a line, and without a line and a column.
pub open spec fn shown_candidates(raw: Seq<char>) -> Seq<Seq<char>> {
    match without_number(raw) {
        None => seq![raw],
        Some(front) => match without_number(front) {
            None => seq![raw, front],
            Some(path) => seq![raw, front, path],
        },
    }
}

/// The paths to try for a shown path in a directory.
pub open spec fn shown_paths(raw: Seq<char>, directory: Seq<char>, home: Option<Seq<char>>) -> Seq<
    Seq<char>,
> {
    shown_candidates(raw).map_values(
        |candidate: Seq<char>| paths::join(directory, paths::expanded_if_known(candidate, home)),
    )
}

fn shown_path(candidate: &[char], directory: &str, home: Option<&str>) -> (r: String)
    ensures
        r@ == paths::join(
            directory@,
            paths::expanded_if_known(candidate@, paths::text_option(home)),
        ),
{
    let text = text_of(candidate);
    let expanded = expand_home_if_known(text.as_str(), home);
    joined(directory, expanded.as_str())
}

/// Lists the paths to try for a shown path.
pub fn shown_file_candidates(raw: &str, directory: &str, home: Option<&str>) -> (r: Vec<String>)
    ensures
        http::texts_of(r@) == shown_paths(raw@, directory@, paths::text_option(home)),
{
    let chars = chars_of(raw);
    let mut out: Vec<String> = Vec::new();
    out.push(shown_path(&chars, directory, home));
    match number_stripped(&chars) {
        None => {},
        Some(front) => {
            out.push(shown_path(front, directory, home));
            match number_stripped(front) {
                None => {},
                Some(path) => {
                    out.push(shown_path(path, directory, home));
                },
            }
        },
    }
    assert(http::texts_of(out@) =~= shown_paths(raw@, directory@, paths::text_option(home)));
    out
}

/// A shown path leads to a file, or to none.
pub open spec fn is_shown_file<F: Fn(&str) -> bool>(
    probe: F,
    raw: Seq<char>,
    directory: Seq<char>,
    home: Option<Seq<char>>,
    found: Option<Seq<char>>,
) -> bool {
    let candidates = shown_paths(raw, directory, home);
    match found {
        Some(path) => exists|k: int| #[trigger]
            is_first_existing(probe, candidates, Some(k)) && path == candidates[k],
        None => is_first_existing(probe, candidates, None),
    }
}

/// The model of a text that may be missing.
pub open spec fn owned_option(r: Option<String>) -> Option<Seq<char>> {
    match r {
        Some(text) => Some(text@),
        None => None,
    }
}

/// Finds the file that a shown path leads to, asking which paths are files.
pub fn resolve_existing_file<F: Fn(&str) -> bool>(
    raw: &str,
    cwd: &str,
    home: Option<&str>,
    is_file: &F,
) -> (r: Option<String>)
    requires
        forall|text: &str| call_requires(*is_file, (text,)),
    ensures
        is_shown_file(*is_file, raw@, cwd@, paths::text_option(home), owned_option(r)),
{
    let candidates = shown_file_candidates(raw, cwd, home);
    match first_existing(&candidates, is_file) {
        Some(k) => {
            let path = candidates[k].as_str().to_owned();
            proof {
                let found: Option<int> = Some(k as int);
                assert(is_first_existing(*is_file, http::texts_of(candidates@), found));
            }
            Some(path)
        },
        None => None,
    }
}

/// The places at which hits were scored.
pub open spec fn places(hits: Seq<bool>) -> Seq<int>
    decreases hits.len(),
{
    if hits.len() == 0 {
        seq![]
    } else {
        let rest = places(hits.drop_last());
        if hits.last() {
            rest.push(hits.len() - 1)
        } else {
            rest
        }
    }
}

/// A list says which shown paths lead to files.
pub open spec fn are_file_targets<F: Fn(&str) -> bool>(
    probe: F,
    targets: Seq<Seq<char>>,
    directory: Seq<char>,
    home: Option<Seq<char>>,
    hits: Seq<bool>,
) -> bool {
    hits.len() == targets.len() && forall|i: int|
        0 <= i < targets.len() ==> if #[trigger] hits[i] {
            exists|path: Seq<char>| is_shown_file(probe, targets[i], directory, home, Some(path))
        } else {
            is_shown_file(probe, targets[i], directory, home, None)
        }
}

/// Keeps the shown paths that lead to files: gives their places, in order.
pub fn filter_existing_file_targets<F: Fn(&str) -> bool>(
    targets: &Vec<String>,
    cwd: &str,
    home: Option<&str>,
    is_file: &F,
) -> (r: Vec<usize>)
    requires
        forall|text: &str| call_requires(*is_file, (text,)),
    ensures
        exists|hits: Seq<bool>| #[trigger]
            are_file_targets(
                *is_file,
                http::texts_of(targets@),
                cwd@,
                paths::text_option(home),
                hits,
            ) && r@.map_values(|i: usize| i as int) == places(hits),
{
    let ghost all = http::texts_of(targets@);
    let ghost mut hits: Seq<bool> = Seq::empty();
    let mut kept: Vec<usize> = Vec::new();
    let mut i: usize = 0;
    assert(all.take(0) =~= seq![]);
    assert(kept@.map_values(|i: usize| i as int) =~= places(hits));
    while i < targets.len()
        invariant
            i <= targets@.len(),
            all == http::texts_of(targets@),
            forall|text: &str| call_requires(*is_file, (text,)),
            hits.len() == i,
            are_file_targets(
                *is_file,
                all.take(i as int),
                cwd@,
                paths::text_option(home),
                hits,
            ),
            kept@.map_values(|i: usize| i as int) == places(hits),
        decreases targets@.len() - i,
    {
        let found = resolve_existing_file(targets[i].as_str(), cwd, home, is_file);
        let hit = found.is_some();
        let ghost before = kept@;
        if hit {
            kept.push(i);
        }
        proof {
            let next = hits.push(hit);
            let shown = all.take(i + 1);
            assert(shown[i as int] == targets@[i as int]@);
            assert forall|j: int| 0 <= j < shown.len() implies if #[trigger] next[j] {
                exists|path: Seq<char>|
                    is_shown_file(*is_file, shown[j], cwd@, paths::text_option(home), Some(path))
            } else {
                is_shown_file(*is_file, shown[j], cwd@, paths::text_option(home), None)
            } by {
                if j < i {
                    assert(next[j] == hits[j]);
                    assert(shown[j] == all.take(i as int)[j]);
                } else if hit {
                    assert(is_shown_file(
                        *is_file,
                        shown[j],
                        cwd@,
                        paths::text_option(home),
                        Some(found->0@),
                    ));
                }
            }
            assert(next.drop_last() =~= hits);
            if hit {
                assert(kept@.map_values(|i: usize| i as int) =~= before.map_values(
                    |i: usize| i as int,
                ).push(i as int));
            }
            hits = next;
        }
        i += 1;
    }
    proof {
        assert(all.take(i as int) =~= all);
        assert(are_file_targets(*is_file, all, cwd@, paths::text_option(home), hits));
    }
    kept
}

// ---------------------------------------------------------------------------------------------
// Laws

/// A clicked link takes priority: where there is one, the selected text does not matter.
pub proof fn law_clicked_link_takes_priority(
    context: Map<Seq<char>, json::JsonFieldModel>,
    selected: json::JsonFieldModel,
)
    requires
        json::member(context, "clicked_url"@) is Some,
    ensures
        selected_line(context.insert("selected_text"@, selected)) == selected_line(context),
{
    reveal_strlit("clicked_url");
    reveal_strlit("selected_text");
    assert("clicked_url"@.len() == 11 && "selected_text"@.len() == 13);
}

/// The last colon of a text that ends with a number is the one before the number.
proof fn lemma_numbered_tail(front: Seq<char>, n: nat)
    ensures
        ({
            let s = front + ":"@ + text::decimal(n);
            &&& text::last_index(s, ':') == Some(front.len() as int)
            &&& s.take(front.len() as int) == front
            &&& s.skip(front.len() as int + 1) == text::decimal(n)
            &&& text::all_in(text::decimal(n), |c: char| text::is_digit(c))
        }),
{
    reveal_strlit(":");
    let number = text::decimal(n);
    let s = front + ":"@ + number;
    text::lemma_decimal_digits(n);
    assert(s[front.len() as int] == ':');
    assert forall|j: int| front.len() < j < s.len() implies #[trigger] s[j] != ':' by {
        assert(s[j] == number[j - front.len() - 1]);
        assert(text::is_digit(number[j - front.len() - 1]));
    }
    text::lemma_last_index_is(s, ':', front.len() as int);
    assert(s.take(front.len() as int) =~= front);
    assert(s.skip(front.len() as int + 1) =~= number);
}

/// A line and a column behind a path are taken off it, whatever the path.
pub proof fn law_line_and_column_are_taken_off(path: Seq<char>, line: nat, column: nat)
    ensures
        without_line(path + ":"@ + text::decimal(line) + ":"@ + text::decimal(column)) == Some(
            path,
        ),
{
    let front = path + ":"@ + text::decimal(line);
    lemma_numbered_tail(front, column);
    lemma_numbered_tail(path, line);
}

/// A line behind a path without colons is taken off it.
pub proof fn law_line_is_taken_off(path: Seq<char>, line: nat)
    requires
        !path.contains(':'),
    ensures
        without_line(path + ":"@ + text::decimal(line)) == Some(path),
{
    lemma_numbered_tail(path, line);
    text::lemma_last_index(path, ':');
    if text::last_index(path, ':') is Some {
        assert(path.contains(path[text::last_index(path, ':')->0]));
    }
}

/// A shown path is tried as it stands first, and then without its line and without its line and
/// column.
pub proof fn law_shown_suffixes_are_tried(path: Seq<char>, line: nat, column: nat)
    requires
        line <= u64::MAX,
        column <= u64::MAX,
    ensures
        ({
            let front = path + ":"@ + text::decimal(line);
            let raw = front + ":"@ + text::decimal(column);
            shown_candidates(raw) == seq![raw, front, path]
        }),
{
    let front = path + ":"@ + text::decimal(line);
    lemma_numbered_tail(front, column);
    lemma_numbered_tail(path, line);
    text::law_decimal_is_read_back(line, u64::MAX as nat);
    text::law_decimal_is_read_back(column, u64::MAX as nat);
}

/// A Markdown link leads to its target.
pub proof fn law_markdown_link_leads_to_its_target(label: Seq<char>, target: Seq<char>)
    requires
        !label.contains(']'),
        text::trim(target) == target,
    ensures
        without_markup("["@ + label + "]("@ + target + ")"@) == without_quotes(target),
{
    let s = "["@ + label + "]("@ + target + ")"@;
    let at = label.len() as int + 1;
    if text::has_text(label, "]("@) {
        reveal_strlit("](");
        let i = choose|i: int| text::occurs_at(label, "]("@, i);
        assert(label.subrange(i, i + 2)[0] == ']');
        assert(label.contains(label[i]));
    }
    lemma_link_parts(label, target);
    lemma_link_is_found(s, label, at);
    text::lemma_trim_fixed(s);
}

/// A link to a local file without escapes means its path.
pub proof fn law_file_link_means_its_path(path: Seq<char>, hostnames: Seq<Seq<char>>)
    requires
        path.len() > 0,
        path[0] == '/',
        !path.contains('%'),
        hostnames.contains(seq![]),
    ensures
        link_path("file://"@ + path, hostnames) == Ok::<Seq<char>, error::Fault>(path),
{
    reveal_strlit("file://");
    let s = "file://"@ + path;
    assert(s.take(7) =~= "file://"@);
    assert(s.skip(7) =~= path);
    text::lemma_first_index_is(path, '/', 0);
    assert(path.take(0) =~= seq![]);
    assert(path.skip(0) =~= path);
    let i = choose|i: int| 0 <= i < hostnames.len() && hostnames[i] == Seq::<char>::empty();
    assert(text::lower(hostnames[i]) == text::lower(path.take(0)));
    encoding::law_plain_text_needs_no_decoding(path);
}

/// The place of a hit is kept, and no other: the places are in order, none is there twice, and a
/// place is among them exactly where a hit was scored.
pub proof fn law_every_hit_is_kept(hits: Seq<bool>)
    ensures
        forall|i: int| 0 <= i < hits.len() ==> (#[trigger] hits[i] <==> places(hits).contains(i)),
        forall|k: int| 0 <= k < places(hits).len() ==> 0 <= #[trigger] places(hits)[k] < hits.len(),
        forall|j: int, k: int|
            0 <= j < k < places(hits).len() ==> #[trigger] places(hits)[j] < #[trigger] places(
                hits,
            )[k],
    decreases hits.len(),
{
    if hits.len() > 0 {
        let front = hits.drop_last();
        let last = hits.len() - 1;
        let rest = places(front);
        let all = places(hits);
        law_every_hit_is_kept(front);
        assert forall|i: int| 0 <= i < hits.len() implies (#[trigger] hits[i] <==> all.contains(
            i,
        )) by {
            if i < last {
                assert(front[i] == hits[i]);
                if rest.contains(i) {
                    let k = choose|k: int| 0 <= k < rest.len() && rest[k] == i;
                    assert(all[k] == i);
                }
                if all.contains(i) {
                    let k = choose|k: int| 0 <= k < all.len() && all[k] == i;
                    assert(rest[k] == i);
                }
            } else {
                if hits[i] {
                    assert(all[all.len() - 1] == i);
                }
                if all.contains(i) && !hits[i] {
                    let k = choose|k: int| 0 <= k < rest.len() && rest[k] == i;
                    assert(rest[k] < front.len());
                }
            }
        }
    }
}

/// Quotation marks of either kind, backquotes and angle brackets are taken off a path, and nothing
/// else of it: blanks inside stay, white space around the quotation and inside its ends goes.
pub proof fn law_quotes_are_taken_off(
    outer: (Seq<char>, Seq<char>),
    open: char,
    inner: (Seq<char>, Seq<char>),
    close: char,
    path: Seq<char>,
)
    requires
        (open == '`' && close == '`') || (open == '\'' && close == '\'') || (open == '"' && close
            == '"') || (open == '<' && close == '>'),
        text::all_in(outer.0, |c: char| text::is_space(c)),
        text::all_in(outer.1, |c: char| text::is_space(c)),
        text::all_in(inner.0, |c: char| text::is_space(c)),
        text::all_in(inner.1, |c: char| text::is_space(c)),
        path.len() > 0 ==> !text::is_space(path[0]) && !text::is_space(path.last()),
    ensures
        without_markup(seq![open] + path + seq![close]) == path,
        without_markup(
            outer.0 + (seq![open] + (inner.0 + path + inner.1) + seq![close]) + outer.1,
        ) == path,
{
    let padded = inner.0 + path + inner.1;
    let quoted = seq![open] + padded + seq![close];
    let bare = seq![open] + path + seq![close];
    assert(quoted[0] == open && quoted.last() == close);
    assert(bare[0] == open && bare.last() == close);
    text::lemma_trim_padding(outer.0, quoted, outer.1);
    text::lemma_trim_fixed(bare);
    text::lemma_trim_padding(inner.0, path, inner.1);
    text::lemma_trim_fixed(path);
    assert(quoted.subrange(1, quoted.len() - 1) =~= padded);
    assert(bare.subrange(1, bare.len() - 1) =~= path);
}

/// A path without markup is kept as it is, except for white space around it.
pub proof fn law_plain_paths_are_kept(front: Seq<char>, path: Seq<char>, back: Seq<char>)
    requires
        text::all_in(front, |c: char| text::is_space(c)),
        text::all_in(back, |c: char| text::is_space(c)),
        path.len() > 0,
        !text::is_space(path[0]),
        !text::is_space(path.last()),
        path[0] != '[' || path.last() != ')',
        path[0] != '`' && path[0] != '\'' && path[0] != '"' && path[0] != '<',
    ensures
        without_markup(front + path + back) == path,
        without_markup(path) == path,
{
    text::lemma_trim_padding(front, path, back);
    text::lemma_trim_fixed(path);
}

/// A Markdown link leads to its target, in angle brackets or not.
pub proof fn law_link_targets_are_unquoted(label: Seq<char>, target: Seq<char>)
    requires
        !label.contains(']'),
        target.len() > 0,
        !text::is_space(target[0]),
        !text::is_space(target.last()),
    ensures
        target[0] != '`' && target[0] != '\'' && target[0] != '"' && target[0] != '<'
            ==> without_markup("["@ + label + "]("@ + target + ")"@) == target,
        without_markup("["@ + label + "]("@ + (seq!['<'] + target + seq!['>']) + ")"@) == target,
{
    text::lemma_trim_fixed(target);
    law_markdown_link_leads_to_its_target(label, target);
    let bracketed = seq!['<'] + target + seq!['>'];
    assert(bracketed[0] == '<' && bracketed.last() == '>');
    text::lemma_trim_fixed(bracketed);
    law_markdown_link_leads_to_its_target(label, bracketed);
    assert(bracketed.subrange(1, bracketed.len() - 1) =~= target);
}

/// A file link means what is behind its host, decoded, where the host is one of the given names,
/// whatever the case of its letters; a link of another host is refused; any other text is a path.
pub proof fn law_file_links_belong_to_a_host(
    host: Seq<char>,
    path: Seq<char>,
    hostnames: Seq<Seq<char>>,
    value: Seq<char>,
)
    requires
        !host.contains('/'),
        path.len() > 0 ==> path[0] == '/',
    ensures
        ({
            let link = link_path("file://"@ + host + path, hostnames);
            let known = exists|i: int|
                0 <= i < hostnames.len() && text::lower(#[trigger] hostnames[i]) == text::lower(
                    host,
                );
            &&& known ==> link == encoding::percent_text(path)
            &&& !known ==> link == Err::<Seq<char>, error::Fault>(
                error::fault_about(ErrorKind::ForeignHost, host),
            )
        }),
        !text::begins_with(value, "file://"@) ==> link_path(value, hostnames) == Ok::<
            Seq<char>,
            error::Fault,
        >(value),
{
    reveal_strlit("file://");
    let s = "file://"@ + host + path;
    let rest = host + path;
    assert(s.subrange(0, 7) =~= "file://"@);
    assert(s.skip(7) =~= rest);
    text::lemma_index_from(rest, '/', 0);
    let n = host.len() as int;
    assert forall|j: int| 0 <= j < n implies #[trigger] rest[j] != '/' by {
        assert(host.contains(host[j]));
    }
    assert(rest.take(n) =~= host);
    assert(rest.skip(n) =~= path);
    if path.len() > 0 {
        assert(rest[n] == '/');
        text::lemma_first_index_is(rest, '/', n);
    } else {
        assert(rest =~= host);
        assert(path =~= seq![]);
    }
}

/// This host goes by no name, by `localhost`, by the name in the environment and by every name that
/// the system reports.
pub proof fn law_this_host_goes_by_its_names(
    variable: Seq<char>,
    reported: Seq<Seq<char>>,
    i: int,
)
    ensures
        host_names(None, reported).contains(""@),
        host_names(None, reported).contains("localhost"@),
        host_names(Some(variable), reported).contains(""@),
        host_names(Some(variable), reported).contains("localhost"@),
        host_names(Some(variable), reported).contains(variable),
        0 <= i < reported.len() ==> host_names(None, reported).contains(text::trim(reported[i]))
            && host_names(Some(variable), reported).contains(text::trim(reported[i])),
        host_names(None, reported).len() == 2 + reported.len(),
        host_names(Some(variable), reported).len() == 3 + reported.len(),
{
    let bare = host_names(None, reported);
    let named = host_names(Some(variable), reported);
    assert(bare[0] == ""@ && bare[1] == "localhost"@);
    assert(named[0] == ""@ && named[1] == "localhost"@ && named[2] == variable);
    if 0 <= i < reported.len() {
        assert(bare[2 + i] == text::trim(reported[i]));
        assert(named[3 + i] == text::trim(reported[i]));
    }
}

/// Digits behind a colon are a line, and digits behind two colons a line and a column; a text that
/// does not end so keeps its colons.
pub proof fn law_only_numbers_are_taken_off(front: Seq<char>, tail: Seq<char>)
    requires
        !tail.contains(':'),
    ensures
        without_line(tail) is None,
        !text::all_in(tail, |c: char| text::is_digit(c)) ==> without_line(front + ":"@ + tail)
            is None,
        text::all_in(tail, |c: char| text::is_digit(c)) && !front.contains(':') ==> without_line(
            front + ":"@ + tail,
        ) == Some(front),
{
    reveal_strlit(":");
    text::lemma_last_index(tail, ':');
    if text::last_index(tail, ':') is Some {
        assert(tail.contains(tail[text::last_index(tail, ':')->0]));
    }
    lemma_last_colon(front, tail);
    text::lemma_last_index(front, ':');
    if !front.contains(':') && text::last_index(front, ':') is Some {
        assert(front.contains(front[text::last_index(front, ':')->0]));
    }
}

/// A colon behind which none follows is the last one.
proof fn lemma_last_colon(front: Seq<char>, tail: Seq<char>)
    requires
        !tail.contains(':'),
    ensures
        ({
            let s = front + ":"@ + tail;
            &&& text::last_index(s, ':') == Some(front.len() as int)
            &&& s.take(front.len() as int) == front
            &&& s.skip(front.len() as int + 1) == tail
        }),
{
    reveal_strlit(":");
    let s = front + ":"@ + tail;
    let n = front.len() as int;
    assert(s[n] == ':');
    assert forall|j: int| n < j < s.len() implies #[trigger] s[j] != ':' by {
        assert(s[j] == tail[j - n - 1]);
        assert(tail.contains(tail[j - n - 1]));
    }
    text::lemma_last_index_is(s, ':', n);
    assert(s.take(n) =~= front);
    assert(s.skip(n + 1) =~= tail);
}

/// A line and a column of whatever digits are taken off together; a single line is, where what
/// stands before it does not end with digits behind a colon itself.
pub proof fn law_line_numbers_of_any_digits_are_taken_off(
    path: Seq<char>,
    word: Seq<char>,
    line: Seq<char>,
    column: Seq<char>,
)
    requires
        text::all_in(line, |c: char| text::is_digit(c)),
        text::all_in(column, |c: char| text::is_digit(c)),
        !word.contains(':'),
        !text::all_in(word, |c: char| text::is_digit(c)),
    ensures
        without_line(path + ":"@ + line + ":"@ + column) == Some(path),
        without_line(path + ":"@ + word + ":"@ + line) == Some(path + ":"@ + word),
{
    assert forall|i: int| 0 <= i < line.len() implies #[trigger] line[i] != ':' by {
        assert(text::is_digit(line[i]));
    }
    assert forall|i: int| 0 <= i < column.len() implies #[trigger] column[i] != ':' by {
        assert(text::is_digit(column[i]));
    }
    let numbered = path + ":"@ + line;
    let named = path + ":"@ + word;
    lemma_last_colon(numbered, column);
    lemma_last_colon(path, line);
    lemma_last_colon(named, line);
    lemma_last_colon(path, word);
    lemma_line_behind(numbered + ":"@ + column, numbered, column);
    lemma_line_behind(named + ":"@ + line, named, line);
}

/// What is taken off depends on what stands behind the last colon, and on what stands behind the one
/// before it.
proof fn lemma_line_behind(s: Seq<char>, front: Seq<char>, tail: Seq<char>)
    requires
        text::last_index(s, ':') == Some(front.len() as int),
        s.take(front.len() as int) == front,
        s.skip(front.len() as int + 1) == tail,
        text::all_in(tail, |c: char| text::is_digit(c)),
    ensures
        without_line(s) == match text::last_index(front, ':') {
            Some(j) => if text::all_in(front.skip(j + 1), |c: char| text::is_digit(c)) {
                Some(front.take(j))
            } else {
                Some(front)
            },
            None => Some(front),
        },
{
}

proof fn lemma_filled_lines(lines: Seq<Seq<char>>, k: int)
    requires
        0 <= k < lines.len(),
        text::trim(lines[k]).len() > 0,
    ensures
        filled_lines(lines).len() > 0,
        (forall|i: int| 0 <= i < lines.len() && i != k ==> text::trim(#[trigger] lines[i]).len()
            == 0) ==> filled_lines(lines) == seq![text::trim(lines[k])],
        (exists|i: int|
            0 <= i < lines.len() && i != k && text::trim(#[trigger] lines[i]).len() > 0)
            ==> filled_lines(lines).len() > 1,
    decreases lines.len(),
{
    let front = lines.drop_last();
    let last = lines.len() - 1;
    if k < last {
        lemma_filled_lines(front, k);
        if exists|i: int|
            0 <= i < lines.len() && i != k && text::trim(#[trigger] lines[i]).len() > 0 {
            let i = choose|i: int|
                0 <= i < lines.len() && i != k && text::trim(#[trigger] lines[i]).len() > 0;
            if i < last {
                assert(front[i] == lines[i]);
            }
        }
        if forall|i: int| 0 <= i < lines.len() && i != k ==> text::trim(#[trigger] lines[i]).len()
            == 0 {
            assert(text::trim(lines[last]).len() == 0);
        }
    } else {
        if exists|i: int|
            0 <= i < lines.len() && i != k && text::trim(#[trigger] lines[i]).len() > 0 {
            let i = choose|i: int|
                0 <= i < lines.len() && i != k && text::trim(#[trigger] lines[i]).len() > 0;
            assert(front[i] == lines[i]);
            lemma_filled_lines(front, i);
        }
        if forall|i: int| 0 <= i < lines.len() && i != k ==> text::trim(#[trigger] lines[i]).len()
            == 0 {
            lemma_no_filled_lines(front);
            assert(filled_lines(lines) =~= seq![text::trim(lines[k])]);
        }
    }
}

proof fn lemma_no_filled_lines(lines: Seq<Seq<char>>)
    requires
        forall|i: int| 0 <= i < lines.len() ==> text::trim(#[trigger] lines[i]).len() == 0,
    ensures
        filled_lines(lines).len() == 0,
    decreases lines.len(),
{
    if lines.len() > 0 {
        let front = lines.drop_last();
        assert forall|i: int| 0 <= i < front.len() implies text::trim(#[trigger] front[i]).len()
            == 0 by {
            assert(front[i] == lines[i]);
        }
        lemma_no_filled_lines(front);
        assert(text::trim(lines[lines.len() - 1]).len() == 0);
    }
}

/// A character of a piece stands in the whole.
proof fn lemma_joined_holds(pieces: Seq<Seq<char>>, c: char, k: int, i: int)
    requires
        0 <= k < pieces.len(),
        0 <= i < pieces[k].len(),
    ensures
        text::joined_by(pieces, c).contains(pieces[k][i]),
    decreases pieces.len(),
{
    let s = text::joined_by(pieces, c);
    if k == 0 {
        assert(s[i] == pieces[k][i]);
    } else {
        let rest = pieces.skip(1);
        assert(rest[k - 1] == pieces[k]);
        lemma_joined_holds(rest, c, k - 1, i);
        let t = text::joined_by(rest, c);
        let at = choose|at: int| 0 <= at < t.len() && t[at] == pieces[k][i];
        assert(s[pieces[0].len() + 1 + at] == pieces[k][i]);
    }
}

/// Every character of the whole is the separator or stands in a piece.
proof fn lemma_joined_blank(pieces: Seq<Seq<char>>)
    requires
        forall|k: int| 0 <= k < pieces.len() ==> text::trim(#[trigger] pieces[k]).len() == 0,
    ensures
        forall|i: int|
            0 <= i < text::joined_by(pieces, '\n').len() ==> text::is_space(
                #[trigger] text::joined_by(pieces, '\n')[i],
            ),
    decreases pieces.len(),
{
    let s = text::joined_by(pieces, '\n');
    if pieces.len() > 0 {
        text::law_only_blanks_are_trimmed_to_nothing(pieces[0]);
        let rest = pieces.skip(1);
        assert forall|k: int| 0 <= k < rest.len() implies text::trim(#[trigger] rest[k]).len()
            == 0 by {
            assert(rest[k] == pieces[k + 1]);
        }
        lemma_joined_blank(rest);
        let n = pieces[0].len() as int;
        assert forall|i: int| 0 <= i < s.len() implies text::is_space(#[trigger] s[i]) by {
            if i < n {
                assert(s[i] == pieces[0][i]);
            } else if i > n {
                assert(s[i] == text::joined_by(rest, '\n')[i - n - 1]);
            }
        }
    }
}

/// One line is selected where exactly one is not blank; it counts without the white space around it.
/// Where all are blank nothing is selected, and more than one is too many. A clicked link is taken
/// before the selected text.
pub proof fn law_exactly_one_line_is_selected(
    context: Map<Seq<char>, json::JsonFieldModel>,
    lines: Seq<Seq<char>>,
    k: int,
)
    requires
        lines.len() > 0,
        forall|i: int| 0 <= i < lines.len() ==> !(#[trigger] lines[i]).contains('\n'),
        json::member_text(context, "clicked_url"@) == Some(text::joined_by(lines, '\n')) || (
        json::member(context, "clicked_url"@) is None && json::member_text(
            context,
            "selected_text"@,
        ) == Some(text::joined_by(lines, '\n'))),
    ensures
        (forall|i: int| 0 <= i < lines.len() ==> text::trim(#[trigger] lines[i]).len() == 0)
            ==> selected_line(context) == Err::<Seq<char>, error::Fault>(
            error::fault(ErrorKind::NothingSelected),
        ),
        0 <= k < lines.len() && text::trim(lines[k]).len() > 0 && (forall|i: int|
            0 <= i < lines.len() && i != k ==> text::trim(#[trigger] lines[i]).len() == 0)
            ==> selected_line(context) == Ok::<Seq<char>, error::Fault>(text::trim(lines[k])),
        0 <= k < lines.len() && text::trim(lines[k]).len() > 0 && (exists|i: int|
            0 <= i < lines.len() && i != k && text::trim(#[trigger] lines[i]).len() > 0)
            ==> selected_line(context) == Err::<Seq<char>, error::Fault>(
            error::fault(ErrorKind::NotOneLine),
        ),
{
    let raw = text::joined_by(lines, '\n');
    text::law_joining_is_undone_by_splitting(lines, '\n');
    text::law_only_blanks_are_trimmed_to_nothing(raw);
    if forall|i: int| 0 <= i < lines.len() ==> text::trim(#[trigger] lines[i]).len() == 0 {
        lemma_joined_blank(lines);
    }
    if 0 <= k < lines.len() && text::trim(lines[k]).len() > 0 {
        lemma_filled_lines(lines, k);
        text::law_only_blanks_are_trimmed_to_nothing(lines[k]);
        let i = choose|i: int| 0 <= i < lines[k].len() && !text::is_space(#[trigger] lines[k][i]);
        lemma_joined_holds(lines, '\n', k, i);
        let at = choose|at: int| 0 <= at < raw.len() && raw[at] == lines[k][i];
        assert(!text::is_space(raw[at]));
    }
}

/// Without a link and without a text nothing is selected.
pub proof fn law_nothing_may_be_selected(context: Map<Seq<char>, json::JsonFieldModel>)
    requires
        json::member(context, "clicked_url"@) is None,
        json::member(context, "selected_text"@) is None,
    ensures
        selected_line(context) == Err::<Seq<char>, error::Fault>(
            error::fault(ErrorKind::NothingSelected),
        ),
{
}

/// A path is looked for below the directory of the pane, or else of the workspace, or else below
/// the current one; there must be a current one in any case.
pub proof fn law_paths_are_below_the_pane(
    context: Map<Seq<char>, json::JsonFieldModel>,
    directory: Seq<char>,
    home: Option<Seq<char>>,
    current: Seq<char>,
    detail: Seq<char>,
)
    requires
        directory.len() == 0 || directory[0] != '~',
    ensures
        json::member_text(context, "focused_pane_cwd"@) == Some(directory) || (json::member(
            context,
            "focused_pane_cwd"@,
        ) is None && json::member_text(context, "workspace_cwd"@) == Some(directory))
            ==> base_directory(context, home, Ok(current)) == Ok::<Seq<char>, error::Fault>(
            directory,
        ) && base_directory(context, home, Err(detail)) == Err::<Seq<char>, error::Fault>(
            error::fault_about(ErrorKind::NoCurrentDirectory, detail),
        ),
        json::member(context, "focused_pane_cwd"@) is None && json::member(
            context,
            "workspace_cwd"@,
        ) is None ==> base_directory(context, home, Ok(current)) == Ok::<Seq<char>, error::Fault>(
            current,
        ) && base_directory(context, home, Err(detail)) == Err::<Seq<char>, error::Fault>(
            error::fault_about(ErrorKind::NoCurrentDirectory, detail),
        ),
{
    paths::law_tilde_means_home(seq![], directory, seq![]);
    match home {
        Some(home) => {
            paths::law_tilde_means_home(seq![], directory, home);
        },
        None => {},
    }
}

/// A candidate is tried as it stands, below its base; where it ends with a line, it is then tried
/// without the line. The error tells the path that was tried last.
pub proof fn law_candidates_are_tried_in_turn(
    base: Seq<char>,
    candidate: Seq<char>,
    shorter: Seq<char>,
    home: Option<Seq<char>>,
)
    requires
        candidate.len() == 0 || candidate[0] != '~',
        shorter.len() == 0 || shorter[0] != '~',
    ensures
        without_line(candidate) is None ==> paths_to_try(base, candidate, home).paths == seq![
            paths::join(base, candidate),
        ] && paths_to_try(base, candidate, home).failure == error::fault_about(
            ErrorKind::PathNotFound,
            paths::join(base, candidate),
        ),
        without_line(candidate) == Some(shorter) ==> paths_to_try(base, candidate, home).paths
            == seq![paths::join(base, candidate), paths::join(base, shorter)] && paths_to_try(
            base,
            candidate,
            home,
        ).failure == error::fault_about(ErrorKind::PathNotFound, paths::join(base, shorter)),
{
    match home {
        Some(home) => {
            paths::law_tilde_means_home(seq![], candidate, home);
            paths::law_tilde_means_home(seq![], shorter, home);
        },
        None => {
            paths::law_tilde_means_home(seq![], candidate, seq![]);
            paths::law_tilde_means_home(seq![], shorter, seq![]);
        },
    }
}

/// A name that is selected in a pane is looked for in the directory of the pane, and nowhere else.
pub proof fn law_selected_name_is_looked_for_in_the_pane(
    context: Map<Seq<char>, json::JsonFieldModel>,
    path: Seq<char>,
    directory: Seq<char>,
    home: Option<Seq<char>>,
    current: Seq<char>,
    hostnames: Seq<Seq<char>>,
)
    requires
        json::member(context, "clicked_url"@) is None,
        json::member_text(context, "selected_text"@) == Some(path),
        json::member_text(context, "focused_pane_cwd"@) == Some(directory),
        path.len() > 0,
        !text::is_space(path[0]),
        !text::is_space(path.last()),
        path[0] != '[' && path[0] != '`' && path[0] != '\'' && path[0] != '"' && path[0] != '<',
        path[0] != '~',
        !path.contains('\n'),
        !path.contains('\0'),
        !path.contains(':'),
        directory.len() == 0 || directory[0] != '~',
    ensures
        selection(context, home, Ok(current), hostnames) == Ok::<SelectionModel, error::Fault>(
            (SelectionModel {
                paths: seq![paths::join(directory, path)],
                failure: error::fault_about(
                    ErrorKind::PathNotFound,
                    paths::join(directory, path),
                ),
            }),
        ),
{
    let lines = seq![path];
    assert(text::joined_by(lines, '\n') == path);
    text::lemma_trim_fixed(path);
    law_exactly_one_line_is_selected(context, lines, 0);
    let none: Seq<char> = seq![];
    law_plain_paths_are_kept(none, path, none);
    reveal_strlit("file://");
    if text::begins_with(path, "file://"@) {
        assert(path.subrange(0, 7)[4] == "file://"@[4]);
        assert(path.contains(path[4]));
    }
    law_paths_are_below_the_pane(context, directory, home, current, none);
    law_only_numbers_are_taken_off(none, path);
    law_candidates_are_tried_in_turn(directory, path, path, home);
    assert(paths_to_try(directory, path, home) =~= (SelectionModel {
        paths: seq![paths::join(directory, path)],
        failure: error::fault_about(ErrorKind::PathNotFound, paths::join(directory, path)),
    }));
}

/// A path with a null character is refused, and so is what a refused candidate means.
pub proof fn law_null_characters_are_refused(
    context: Map<Seq<char>, json::JsonFieldModel>,
    candidate: Seq<char>,
    fault: error::Fault,
    home: Option<Seq<char>>,
    current: Result<Seq<char>, Seq<char>>,
)
    ensures
        candidate.contains('\0') ==> selection_of(context, Ok(candidate), home, current) == Err::<
            SelectionModel,
            error::Fault,
        >(error::fault(ErrorKind::NullInPath)),
        selection_of(context, Err(fault), home, current) == Err::<SelectionModel, error::Fault>(
            fault,
        ),
{
}

/// What is found exists, and nothing before it does; where nothing is found nothing exists. What is
/// resolved is the path that was found, and what is told is the failure that was laid down.
pub proof fn law_first_existing_path_is_taken<F: Fn(&str) -> bool>(
    probe: F,
    selection: SelectionModel,
    k: int,
    j: int,
    path: Seq<char>,
    fault: error::Fault,
)
    ensures
        is_first_existing(probe, selection.paths, Some(k)) ==> 0 <= k < selection.paths.len()
            && answered(probe, selection.paths[k], true) && (0 <= j < k ==> answered(
            probe,
            selection.paths[j],
            false,
        )),
        is_first_existing(probe, selection.paths, None) ==> (0 <= j < selection.paths.len()
            ==> answered(probe, selection.paths[j], false)),
        is_resolved(probe, Ok(selection), Ok(path)) ==> selection.paths.contains(path) && answered(
            probe,
            path,
            true,
        ),
        is_resolved(probe, Ok(selection), Err(fault)) ==> fault == selection.failure && (0 <= j
            < selection.paths.len() ==> answered(probe, selection.paths[j], false)),
{
    if is_resolved(probe, Ok(selection), Ok(path)) {
        let i = choose|i: int| #[trigger]
            is_first_existing(probe, selection.paths, Some(i)) && path == selection.paths[i];
        assert(selection.paths[i] == path);
    }
}

/// A shown path without a number behind a colon means itself alone; with one number it means itself,
/// or itself without the number.
pub proof fn law_shown_paths_are_tried_as_they_stand(path: Seq<char>, line: nat)
    requires
        !path.contains(':'),
        line <= u64::MAX,
    ensures
        shown_candidates(path) == seq![path],
        shown_candidates(path + ":"@ + text::decimal(line)) == seq![
            path + ":"@ + text::decimal(line),
            path,
        ],
{
    text::lemma_last_index(path, ':');
    if text::last_index(path, ':') is Some {
        assert(path.contains(path[text::last_index(path, ':')->0]));
    }
    lemma_numbered_tail(path, line);
    text::law_decimal_is_read_back(line, u64::MAX as nat);
}

/// What a shown path may mean is looked for below the directory, in the same order; a tilde means
/// home where that is known.
pub proof fn law_shown_paths_are_below_the_directory(
    raw: Seq<char>,
    directory: Seq<char>,
    home: Option<Seq<char>>,
    i: int,
)
    requires
        0 <= i < shown_candidates(raw).len(),
    ensures
        shown_paths(raw, directory, home).len() == shown_candidates(raw).len(),
        shown_paths(raw, directory, home)[i] == paths::join(
            directory,
            paths::expanded_if_known(shown_candidates(raw)[i], home),
        ),
        shown_candidates(raw)[0] == raw,
{
}

/// Signs that are not paired are no markup: a path that only begins or only ends with one keeps it,
/// and so does a bracketed text that is no link.
pub proof fn law_unpaired_signs_are_kept(front: Seq<char>, path: Seq<char>, back: Seq<char>)
    requires
        text::all_in(front, |c: char| text::is_space(c)),
        text::all_in(back, |c: char| text::is_space(c)),
        path.len() > 0 ==> !text::is_space(path[0]) && !text::is_space(path.last()),
        path.len() > 0 && path[0] == '[' && path.last() == ')' ==> !text::has_text(path, "]("@),
        path.len() >= 2 ==> !(path[0] == '`' && path.last() == '`') && !(path[0] == '\''
            && path.last() == '\'') && !(path[0] == '"' && path.last() == '"') && !(path[0] == '<'
            && path.last() == '>'),
    ensures
        without_markup(front + path + back) == path,
{
    text::lemma_trim_padding(front, path, back);
    text::lemma_find_text(path, "]("@);
}

/// A Markdown link is read as its target would be, whatever its label says; only a link within a
/// link is left alone.
pub proof fn law_links_are_read_as_their_target(label: Seq<char>, target: Seq<char>)
    requires
        !text::has_text(label, "]("@),
        text::trim(target).len() > 0 ==> text::trim(target)[0] != '[',
    ensures
        without_markup("["@ + label + "]("@ + target + ")"@) == without_markup(target),
{
    let s = "["@ + label + "]("@ + target + ")"@;
    let at = label.len() as int + 1;
    lemma_link_parts(label, target);
    lemma_link_is_found(s, label, at);
    text::lemma_trim_fixed(s);
}

/// The parts of a Markdown link stand one behind the other.
proof fn lemma_link_parts(label: Seq<char>, target: Seq<char>)
    ensures
        ({
            let s = "["@ + label + "]("@ + target + ")"@;
            let at = label.len() as int + 1;
            &&& s.len() == at + target.len() + 3
            &&& s[0] == '['
            &&& s.last() == ')'
            &&& s[at] == ']'
            &&& s[at + 1] == '('
            &&& forall|j: int| 0 < j < at ==> #[trigger] s[j] == label[j - 1]
            &&& s.subrange(at + 2, s.len() - 1) == target
        }),
{
    reveal_strlit("[");
    reveal_strlit("](");
    reveal_strlit(")");
    let s = "["@ + label + "]("@ + target + ")"@;
    let at = label.len() as int + 1;
    assert(s.subrange(at + 2, s.len() - 1) =~= target);
}

/// Behind a label that does not end a link itself, the end of the label is found.
proof fn lemma_link_is_found(s: Seq<char>, label: Seq<char>, at: int)
    requires
        !text::has_text(label, "]("@),
        at == label.len() + 1,
        at + 2 <= s.len(),
        s[0] == '[',
        s[at] == ']',
        s[at + 1] == '(',
        forall|j: int| 0 < j < at ==> #[trigger] s[j] == label[j - 1],
    ensures
        text::find_text(s, "]("@) == Some(at),
{
    reveal_strlit("](");
    assert(s.subrange(at, at + 2) =~= "]("@);
    assert(text::occurs_at(s, "]("@, at));
    text::lemma_find_text(s, "]("@);
    let i = text::find_text(s, "]("@)->0;
    assert(s.subrange(i, i + 2)[0] == ']' && s.subrange(i, i + 2)[1] == '(');
    assert(s[i] == ']' && s[i + 1] == '(');
    if i < at {
        assert(s[i] == label[i - 1]);
        assert(i + 1 < at);
        assert(s[i + 1] == label[i]);
        assert(label.subrange(i - 1, i + 1) =~= "]("@);
        assert(text::occurs_at(label, "]("@, i - 1));
    }
}

/// A tilde in the directory of the pane, or at the front of a selected path, means home; where home
/// is not known it is refused.
pub proof fn law_selected_tilde_means_home(
    context: Map<Seq<char>, json::JsonFieldModel>,
    rest: Seq<char>,
    base: Seq<char>,
    home: Seq<char>,
    current: Seq<char>,
)
    ensures
        json::member_text(context, "focused_pane_cwd"@) == Some("~/"@ + rest) ==> base_directory(
            context,
            Some(home),
            Ok(current),
        ) == Ok::<Seq<char>, error::Fault>(paths::join(home, rest)) && base_directory(
            context,
            None,
            Ok(current),
        ) == Err::<Seq<char>, error::Fault>(error::fault(ErrorKind::HomeNotSet)),
        json::member_text(context, "focused_pane_cwd"@) == Some("~"@) ==> base_directory(
            context,
            Some(home),
            Ok(current),
        ) == Ok::<Seq<char>, error::Fault>(home),
        ({
            let known = paths_to_try(base, "~/"@ + rest, Some(home));
            let unknown = paths_to_try(base, "~/"@ + rest, None);
            &&& known.paths.len() > 0
            &&& known.paths[0] == paths::join(base, paths::join(home, rest))
            &&& unknown.paths.len() == 0
            &&& unknown.failure == error::fault(ErrorKind::HomeNotSet)
        }),
{
    paths::law_tilde_means_home(rest, rest, home);
}

/// What is selected is taken step by step: the line without its markup, the file that a link leads
/// to, and the paths that this may mean below the directory. What goes wrong on the way is told.
pub proof fn law_selection_goes_step_by_step(
    context: Map<Seq<char>, json::JsonFieldModel>,
    line: Seq<char>,
    path: Seq<char>,
    base: Seq<char>,
    fault: error::Fault,
    home: Option<Seq<char>>,
    current: Result<Seq<char>, Seq<char>>,
    hostnames: Seq<Seq<char>>,
)
    ensures
        selected_line(context) == Err::<Seq<char>, error::Fault>(fault) ==> selection(
            context,
            home,
            current,
            hostnames,
        ) == Err::<SelectionModel, error::Fault>(fault),
        selected_line(context) == Ok::<Seq<char>, error::Fault>(line) && link_path(
            without_markup(line),
            hostnames,
        ) == Err::<Seq<char>, error::Fault>(fault) ==> selection(context, home, current, hostnames)
            == Err::<SelectionModel, error::Fault>(fault),
        selected_line(context) == Ok::<Seq<char>, error::Fault>(line) && link_path(
            without_markup(line),
            hostnames,
        ) == Ok::<Seq<char>, error::Fault>(path) && !path.contains('\0') && base_directory(
            context,
            home,
            current,
        ) == Err::<Seq<char>, error::Fault>(fault) ==> selection(context, home, current, hostnames)
            == Err::<SelectionModel, error::Fault>(fault),
        selected_line(context) == Ok::<Seq<char>, error::Fault>(line) && link_path(
            without_markup(line),
            hostnames,
        ) == Ok::<Seq<char>, error::Fault>(path) && !path.contains('\0') && base_directory(
            context,
            home,
            current,
        ) == Ok::<Seq<char>, error::Fault>(base) ==> selection(context, home, current, hostnames)
            == Ok::<SelectionModel, error::Fault>(paths_to_try(base, path, home)),
{
}

/// A colon with no number behind it belongs to a shown path; one with a number may.
pub proof fn law_shown_colons_may_belong_to_the_path(front: Seq<char>, tail: Seq<char>)
    requires
        !tail.contains(':'),
    ensures
        text::parse_number(tail, u64::MAX as nat) is None ==> shown_candidates(
            front + ":"@ + tail,
        ) == seq![front + ":"@ + tail],
        text::parse_number(tail, u64::MAX as nat) is Some ==> ({
            let candidates = shown_candidates(front + ":"@ + tail);
            &&& candidates.len() >= 2
            &&& candidates[0] == front + ":"@ + tail
            &&& candidates[1] == front
            &&& candidates.len() == 3 <==> shown_candidates(front).len() > 1
            &&& candidates.len() == 3 ==> candidates[2] == shown_candidates(front)[1]
        }),
{
    lemma_last_colon(front, tail);
    lemma_number_behind(front + ":"@ + tail, front, tail);
    lemma_candidates(front + ":"@ + tail);
    lemma_candidates(front);
}

/// A number is taken off where one stands behind the last colon.
proof fn lemma_number_behind(s: Seq<char>, front: Seq<char>, tail: Seq<char>)
    requires
        text::last_index(s, ':') == Some(front.len() as int),
        s.take(front.len() as int) == front,
        s.skip(front.len() as int + 1) == tail,
    ensures
        text::parse_number(tail, u64::MAX as nat) is None ==> without_number(s) is None,
        text::parse_number(tail, u64::MAX as nat) is Some ==> without_number(s) == Some(front),
{
}

/// A shown text may mean itself, and what is left of it when one or two numbers are taken off.
proof fn lemma_candidates(s: Seq<char>)
    ensures
        without_number(s) is None ==> shown_candidates(s) == seq![s],
        without_number(s) matches Some(front) ==> shown_candidates(s).len() >= 2
            && shown_candidates(s)[0] == s && shown_candidates(s)[1] == front && (
        without_number(front) is None <==> shown_candidates(s).len() == 2) && (without_number(
            front,
        ) matches Some(path) ==> shown_candidates(s).len() == 3 && shown_candidates(s)[2] == path),
{
}

/// A shown path is kept exactly where the probe affirms one of the paths that it may mean, and what
/// it leads to is the first of these.
pub proof fn law_kept_paths_lead_to_files<F: Fn(&str) -> bool>(
    probe: F,
    targets: Seq<Seq<char>>,
    directory: Seq<char>,
    home: Option<Seq<char>>,
    hits: Seq<bool>,
    i: int,
    j: int,
    path: Seq<char>,
)
    requires
        0 <= i < targets.len(),
    ensures
        ({
            let candidates = shown_paths(targets[i], directory, home);
            &&& are_file_targets(probe, targets, directory, home, hits) ==> hits.len()
                == targets.len()
            &&& are_file_targets(probe, targets, directory, home, hits) && hits[i] ==> exists|k: int|
                0 <= k < candidates.len() && answered(probe, #[trigger] candidates[k], true)
            &&& are_file_targets(probe, targets, directory, home, hits) && !hits[i] && 0 <= j
                < candidates.len() ==> answered(probe, candidates[j], false)
            &&& is_shown_file(probe, targets[i], directory, home, Some(path)) ==> exists|k: int|
                0 <= k < candidates.len() && path == #[trigger] candidates[k] && answered(
                    probe,
                    path,
                    true,
                ) && (0 <= j < k ==> answered(probe, candidates[j], false))
            &&& is_shown_file(probe, targets[i], directory, home, None) && 0 <= j < candidates.len()
                ==> answered(probe, candidates[j], false)
        }),
{
    let candidates = shown_paths(targets[i], directory, home);
    if are_file_targets(probe, targets, directory, home, hits) && hits[i] {
        let found = choose|found: Seq<char>|
            is_shown_file(probe, targets[i], directory, home, Some(found));
        let k = choose|k: int| #[trigger]
            is_first_existing(probe, candidates, Some(k)) && found == candidates[k];
        assert(answered(probe, candidates[k], true));
    }
    if is_shown_file(probe, targets[i], directory, home, Some(path)) {
        let k = choose|k: int| #[trigger]
            is_first_existing(probe, candidates, Some(k)) && path == candidates[k];
        assert(path == candidates[k]);
    }
}

/// The names of this host matter exactly where what is selected begins as a file link does.
pub proof fn law_file_links_are_recognised(
    context: Map<Seq<char>, json::JsonFieldModel>,
    line: Seq<char>,
    rest: Seq<char>,
)
    ensures
        selected_line(context) == Ok::<Seq<char>, error::Fault>(line) && without_markup(line)
            == "file://"@ + rest ==> selects_link(context),
        selected_line(context) == Ok::<Seq<char>, error::Fault>(line) && selects_link(context)
            ==> without_markup(line) == "file://"@ + without_markup(line).skip(7),
        selected_line(context) is Err ==> !selects_link(context),
{
    reveal_strlit("file://");
    text::law_fronts_and_backs_are_recognised("file://"@, rest);
    text::law_recognised_fronts_and_backs_stand_there(without_markup(line), "file://"@);
}

} // verus!
