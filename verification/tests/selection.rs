//! Which file is meant.
use herdr_remote_download::error::ErrorKind;
use herdr_remote_download::json::{
    context_from_environment, focused_pane_context, selection_context, JsonField, JsonObject,
};
use herdr_remote_download::selection::{
    current_hostnames, filter_existing_file_targets, resolve_existing_file,
    resolve_path_from_context, select_paths, selects_file_url, strip_line_suffix,
    strip_path_markup,
};

const ROOT: &str = "/remote/root";

fn context(members: &[(&str, &str)]) -> JsonObject {
    let mut object = JsonObject::new();
    for (name, text) in members {
        object.insert(name, JsonField::Text(text.to_string()));
    }
    object
}

fn hosts() -> Vec<String> {
    current_hostnames(Some("Build-7"), &vec!["build-7.example\n".to_string()])
}

fn resolve(context: &JsonObject, existing: &[&str]) -> Result<String, (ErrorKind, String)> {
    resolve_path_from_context(context, Some("/home/user"), Ok("/current"), &hosts(), &|path: &str| {
        existing.contains(&path)
    })
    .map_err(|error| (error.kind, error.message()))
}

#[test]
fn resolves_context_paths_and_suffixes() {
    let file = format!("{ROOT}/result data.txt");
    let selected = format!("{file}:42:7");
    let context = context(&[("selected_text", &selected), ("focused_pane_cwd", ROOT)]);
    assert_eq!(resolve(&context, &[&file]).unwrap(), file);
}

#[test]
fn resolves_markdown_and_relative_paths() {
    let file = format!("{ROOT}/result.txt");
    let context =
        context(&[("selected_text", "[result](result.txt:12)"), ("focused_pane_cwd", ROOT)]);
    assert_eq!(resolve(&context, &[&file]).unwrap(), file);
}

#[test]
fn clicked_file_url_takes_priority() {
    let file = format!("{ROOT}/result data.txt");
    let url = format!("file://{file}").replace(' ', "%20");
    let context = context(&[
        ("clicked_url", &url),
        ("selected_text", "missing.txt"),
        ("focused_pane_cwd", ROOT),
    ]);
    assert_eq!(resolve(&context, &[&file]).unwrap(), file);
}

#[test]
fn rejects_multiline_context() {
    let context = context(&[("selected_text", "one.txt\ntwo.txt")]);
    assert!(resolve(&context, &[]).unwrap_err().1.contains("exactly one"));
}

#[test]
fn recognizes_a_bare_filename_with_a_line_suffix() {
    let readme = format!("{ROOT}/README.md");
    assert_eq!(
        resolve_existing_file("README.md:42:7", ROOT, None, &|path: &str| path == readme),
        Some(readme.clone())
    );
}

#[test]
fn blank_lines_around_a_path_do_not_count() {
    let only = context(&[("selected_text", "\n  a.txt \r\n\n"), ("focused_pane_cwd", ROOT)]);
    assert_eq!(resolve(&only, &["/remote/root/a.txt"]).unwrap(), "/remote/root/a.txt");
    let blank = context(&[("selected_text", " \n ")]);
    assert_eq!(resolve(&blank, &[]).unwrap_err().0, ErrorKind::NothingSelected);
    let nothing = context(&[]);
    assert_eq!(
        resolve(&nothing, &[]).unwrap_err().1,
        "select one remote file path or click a file:// link first"
    );
    let mut odd = context(&[("selected_text", "a.txt")]);
    odd.insert("clicked_url", JsonField::Null);
    assert_eq!(resolve(&odd, &[]).unwrap_err().0, ErrorKind::NothingSelected);
}

#[test]
fn directories_are_looked_up_in_turn() {
    let selected = ("selected_text", "a.txt");
    let pane = context(&[selected, ("focused_pane_cwd", "/p"), ("workspace_cwd", "/w")]);
    assert_eq!(resolve(&pane, &["/p/a.txt"]).unwrap(), "/p/a.txt");
    let workspace = context(&[selected, ("workspace_cwd", "/w")]);
    assert_eq!(resolve(&workspace, &["/w/a.txt"]).unwrap(), "/w/a.txt");
    assert_eq!(resolve(&context(&[selected]), &["/current/a.txt"]).unwrap(), "/current/a.txt");
    let home = context(&[selected, ("focused_pane_cwd", "~/p")]);
    assert_eq!(resolve(&home, &["/home/user/p/a.txt"]).unwrap(), "/home/user/p/a.txt");
    let mut odd = context(&[selected, ("workspace_cwd", "/w")]);
    odd.insert("focused_pane_cwd", JsonField::Number(Some(7)));
    assert_eq!(resolve(&odd, &["/current/a.txt"]).unwrap(), "/current/a.txt");
}

#[test]
fn missing_paths_are_told() {
    let missing = context(&[("selected_text", "a.txt:3"), ("focused_pane_cwd", ROOT)]);
    assert_eq!(
        resolve(&missing, &[]).unwrap_err(),
        (
            ErrorKind::PathNotFound,
            "path does not exist or is not a regular file or directory: /remote/root/a.txt"
                .to_string()
        )
    );
    let null = context(&[("selected_text", "a\0b")]);
    assert_eq!(resolve(&null, &[]).unwrap_err().1, "file path contains a null byte");
}

#[test]
fn an_unknown_home_ends_the_search() {
    let selected = context(&[("selected_text", "~:12"), ("focused_pane_cwd", "/p")]);
    let hosts = hosts();
    let found = resolve_path_from_context(&selected, None, Ok("/"), &hosts, &|path: &str| {
        path == "/p/~:12"
    });
    assert_eq!(found.unwrap(), "/p/~:12");
    let lost = resolve_path_from_context(&selected, None, Ok("/"), &hosts, &|_: &str| false);
    assert_eq!(lost.err().unwrap().kind, ErrorKind::HomeNotSet);
    let selection = select_paths(&selected, Some("/h"), Ok("/"), &hosts).unwrap();
    assert_eq!(selection.paths, ["/p/~:12", "/h"]);
    let nowhere = select_paths(&selected, Some("/h"), Err("gone"), &hosts);
    assert_eq!(
        nowhere.err().unwrap().message(),
        "cannot determine current directory: gone"
    );
}

#[test]
fn file_links_belong_to_this_host() {
    assert_eq!(hosts(), ["", "localhost", "Build-7", "build-7.example"]);
    let url = |url: &str| resolve(&context(&[("clicked_url", url)]), &["/a b", "/", ""]);
    assert_eq!(url("file:///a%20b").unwrap(), "/a b");
    assert_eq!(url("file://LOCALHOST/a b").unwrap(), "/a b");
    assert_eq!(url("file://BUILD-7/a%20b").unwrap(), "/a b");
    assert_eq!(url("<file://build-7.example/a%20b:9>").unwrap(), "/a b");
    assert_eq!(
        url("file://other/a").unwrap_err().1,
        "file URL belongs to another host: other"
    );
    assert_eq!(url("file:///%4").unwrap_err().1, "invalid percent encoding in file URL");
    assert_eq!(url("file:///%zz").unwrap_err().1, "invalid percent encoding in file URL");
    let (kind, message) = url("file:///%ff").unwrap_err();
    assert_eq!(kind, ErrorKind::UrlNotUtf8);
    assert_eq!(
        message,
        "file URL path is not valid UTF-8: invalid utf-8 sequence of 1 bytes from index 1"
    );
    assert!(selects_file_url(&context(&[("clicked_url", "`file:///a`")])));
    assert!(!selects_file_url(&context(&[("clicked_url", "/a")])));
    assert!(!selects_file_url(&context(&[])));
}

fn stripped(text: &str) -> String {
    let chars: Vec<char> = text.chars().collect();
    strip_path_markup(&chars).iter().collect()
}

#[test]
fn markup_is_stripped() {
    assert_eq!(stripped(" [label]( target ) "), "target");
    assert_eq!(stripped("[a](b](c)"), "b](c");
    assert_eq!(stripped("[a](`b c`)"), "b c");
    assert_eq!(stripped("`a`"), "a");
    assert_eq!(stripped("'a'"), "a");
    assert_eq!(stripped("\"a\""), "a");
    assert_eq!(stripped("<a>"), "a");
    assert_eq!(stripped("<a<"), "<a<");
    assert_eq!(stripped("``"), "");
    assert_eq!(stripped("`"), "`");
    assert_eq!(stripped("é"), "é");
    assert_eq!(stripped("[a)"), "[a)");
}

fn suffix_stripped(text: &str) -> Option<String> {
    let chars: Vec<char> = text.chars().collect();
    strip_line_suffix(&chars).map(|path| path.iter().collect())
}

#[test]
fn line_suffixes_are_stripped() {
    assert_eq!(suffix_stripped("a.rs:4:2"), Some("a.rs".to_string()));
    assert_eq!(suffix_stripped("a.rs:4"), Some("a.rs".to_string()));
    assert_eq!(suffix_stripped("a.rs:"), Some("a.rs".to_string()));
    assert_eq!(suffix_stripped("a:b:4"), Some("a:b".to_string()));
    assert_eq!(suffix_stripped("a:4b"), None);
    assert_eq!(suffix_stripped("a.rs"), None);
    assert_eq!(suffix_stripped("a:1:2:3"), Some("a:1".to_string()));
}

#[test]
fn shown_paths_are_tried_in_turn() {
    let found = |raw: &str, existing: &[&str]| {
        resolve_existing_file(raw, "/c", Some("/h"), &|path: &str| existing.contains(&path))
    };
    assert_eq!(found("a:1:2", &["/c/a:1:2", "/c/a:1", "/c/a"]).unwrap(), "/c/a:1:2");
    assert_eq!(found("a:1:2", &["/c/a:1", "/c/a"]).unwrap(), "/c/a:1");
    assert_eq!(found("a:1:2", &["/c/a"]).unwrap(), "/c/a");
    assert_eq!(found("a:+1", &["/c/a"]).unwrap(), "/c/a");
    assert_eq!(found("a:", &["/c/a"]), None);
    assert_eq!(found("a:18446744073709551616", &["/c/a"]), None);
    assert_eq!(found("~/a", &["/h/a"]).unwrap(), "/h/a");
    assert_eq!(found("/x/a", &["/x/a"]).unwrap(), "/x/a");
    assert_eq!(resolve_existing_file("~/a", "/c", None, &|path: &str| path == "/c/~/a").unwrap(), "/c/~/a");
}

#[test]
fn only_targets_that_are_files_are_kept() {
    let targets: Vec<String> =
        ["docs/result.md", "docs/missing.md", "docs/folder", "docs/result.md:3"]
            .map(String::from)
            .to_vec();
    let kept = filter_existing_file_targets(&targets, ROOT, None, &|path: &str| {
        path == "/remote/root/docs/result.md"
    });
    assert_eq!(kept, [0, 3]);
}

#[test]
fn contexts_are_read() {
    let context = context_from_environment(Some(r#"{"selected_text": "a", "n": 1}"#), None).unwrap();
    assert_eq!(context.text("selected_text"), Some("a"));
    assert_eq!(context.text("n"), None);
    let clicked = context_from_environment(
        Some(r#"{"clicked_url": "old", "clicked_url": "older"}"#),
        Some("new"),
    )
    .unwrap();
    assert_eq!(clicked.text("clicked_url"), Some("new"));
    let twice = context_from_environment(Some(r#"{"a": "x", "a": "y"}"#), None).unwrap();
    assert_eq!(twice.text("a"), Some("y"));
    assert!(context_from_environment(None, None).unwrap().get("clicked_url").is_none());
    assert_eq!(
        context_from_environment(Some("[]"), None).err().unwrap().message(),
        "HERDR_PLUGIN_CONTEXT_JSON must be an object"
    );
    let error = context_from_environment(Some("{"), None).err().unwrap();
    assert_eq!(error.kind, ErrorKind::InvalidContext);
    assert_eq!(
        error.message(),
        "HERDR_PLUGIN_CONTEXT_JSON is invalid: EOF while parsing an object at line 1 column 1"
    );
}

#[test]
fn panes_are_read() {
    let pane = focused_pane_context(r#"{"focused_pane_id": "p1", "workspace_cwd": "/w"}"#).unwrap();
    assert_eq!(pane, ("p1".to_string(), "/w".to_string()));
    let pane = focused_pane_context(
        r#"{"focused_pane_id": "p1", "focused_pane_cwd": "/p", "workspace_cwd": "/w"}"#,
    )
    .unwrap();
    assert_eq!(pane.1, "/p");
    let message = |raw: &str| focused_pane_context(raw).err().unwrap().message();
    assert_eq!(message("[]"), "plugin context did not include focused_pane_id");
    assert_eq!(message(r#"{"focused_pane_id": 3}"#), "plugin context did not include focused_pane_id");
    assert_eq!(
        message(r#"{"focused_pane_id": "p1"}"#),
        "plugin context did not include focused_pane_cwd"
    );
    assert_eq!(
        message("nonsense"),
        "HERDR_PLUGIN_CONTEXT_JSON is invalid: expected ident at line 1 column 2"
    );
}

#[test]
fn written_selections_are_read_back() {
    let text = selection_context("a \"b\".txt:3", "/päne");
    assert_eq!(text, "{\"focused_pane_cwd\":\"/päne\",\"selected_text\":\"a \\\"b\\\".txt:3\"}");
    let context = context_from_environment(Some(&text), None).unwrap();
    assert_eq!(resolve(&context, &["/päne/a \"b\".txt"]).unwrap(), "/päne/a \"b\".txt");
}
