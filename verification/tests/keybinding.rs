//! The key that opens the picker.
use herdr_remote_download::error::ErrorKind;
use herdr_remote_download::keybinding::{
    add_keybinding_config, update_config, DOWNLOAD_ACTION, LEGACY_LINE, PICK_ACTION,
    PICK_DESCRIPTION, UPLOAD_ACTION, UPLOAD_DESCRIPTION,
};

#[test]
fn keybinding_configuration_is_idempotent() {
    let original =
        "[keys]\nprefix = \"ctrl+b\"\n\n[worktrees]\ndirectory = \"~/.herdr/worktrees\"\n";
    let (updated, changed) = add_keybinding_config(original, "prefix+d").unwrap();
    let (repeated, changed_again) = add_keybinding_config(&updated, "prefix+d").unwrap();
    assert!(changed);
    assert!(!changed_again);
    assert_eq!(updated, repeated);
    assert!(updated.find(PICK_ACTION) < updated.find("[worktrees]"));
}

#[test]
fn rejects_existing_keybinding() {
    let original = "[[keys.command]]\nkey = \"prefix+d\"\ncommand = \"other\"\n";
    assert!(add_keybinding_config(original, "prefix+d")
        .unwrap_err()
        .message()
        .contains("already in use"));
}

#[test]
fn upgrades_legacy_direct_download_keybinding() {
    let original = format!(
        "[[keys.command]]\nkey = \"prefix+d\"\ntype = \"plugin_action\"\n\
         command = \"{DOWNLOAD_ACTION}\"\n\
         description = \"download selected remote file\"\n"
    );
    let (updated, changed) = add_keybinding_config(&original, "prefix+d").unwrap();
    assert!(changed);
    assert!(updated.contains(PICK_ACTION));
    assert!(updated.contains(PICK_DESCRIPTION));
    assert!(!updated.contains(&format!("command = \"{DOWNLOAD_ACTION}\"")));
}

#[test]
fn bindings_are_spelled_out() {
    let block = "\n[[keys.command]]\nkey = \"prefix+d\"\ntype = \"plugin_action\"\n\
                 command = \"kosukeyano.remote-download.pick\"\n\
                 description = \"pick a remote file to download\"\n";
    let (updated, _) = add_keybinding_config("[keys]\n\n", "prefix+d").unwrap();
    assert_eq!(updated, format!("[keys]\n{block}"));
    let (updated, _) = add_keybinding_config("[keys]  \n[worktrees]\nx\n", "prefix+d").unwrap();
    assert_eq!(updated, format!("[keys]\n{block}\n[worktrees]\nx\n"));
    let (updated, _) = add_keybinding_config("", "prefix+d").unwrap();
    assert_eq!(updated, format!("\n{block}"));
    assert_eq!(UPLOAD_ACTION, "kosukeyano.remote-download.upload");
    assert_eq!(UPLOAD_DESCRIPTION, "upload files from the connected Mac");
}

#[test]
fn keys_are_found_as_whole_lines() {
    for bound in
        ["key=\"prefix+d\"", "x\nkey   =\t\"prefix+d\"  \ny", "key = \"prefix+d\"\r\n", "\nkey\n= \"prefix+d\""]
    {
        let error = add_keybinding_config(bound, "prefix+d").unwrap_err();
        assert_eq!(error.kind, ErrorKind::KeyInUse);
        assert_eq!(error.message(), "keybinding is already in use: prefix+d");
    }
    for free in ["  key = \"prefix+d\"", "key = \"prefix+d\" # here", "key = \"prefixxd\"", "key = \"prefix+dd\""]
    {
        assert!(add_keybinding_config(free, "prefix+d").unwrap().1);
    }
}

#[test]
fn unsupported_keys_are_refused() {
    for key in ["a b", "a\"b", "a.b", "ä"] {
        let error = add_keybinding_config("[keys]\n", key).unwrap_err();
        assert_eq!(error.message(), "keybinding contains unsupported characters");
    }
    assert!(add_keybinding_config("[keys]\n", "Ctrl_x-9+").unwrap().1);
    let bound = format!("command = \"{PICK_ACTION}\"\n");
    assert_eq!(add_keybinding_config(&bound, "a b").unwrap(), (bound, false));
}

#[test]
fn old_descriptions_are_brought_up_to_date_one_by_one() {
    let old = "description = \"download selected remote file\"\n";
    let new = "description = \"pick a remote file to download\"\n";
    let action = format!("command = \"{PICK_ACTION}\"\n");
    let original = format!("{old}{action}{old}");
    let (updated, changed) = add_keybinding_config(&original, "k").unwrap();
    assert!(changed);
    assert_eq!(updated, format!("{new}{action}{old}"));
    let (updated, changed) = add_keybinding_config(&updated, "k").unwrap();
    assert!(changed);
    assert_eq!(updated, format!("{new}{action}{new}"));
    assert!(!add_keybinding_config(&updated, "k").unwrap().1);
}

#[test]
fn what_was_found_decides() {
    let legacy = format!("command = \"{DOWNLOAD_ACTION}\"\n");
    let (upgraded, _) = update_config(&legacy, "k", true).unwrap();
    assert_eq!(upgraded, format!("command = \"{PICK_ACTION}\"\n"));
    let (bound, _) = update_config(&legacy, "k", false).unwrap();
    assert!(bound.starts_with(legacy.trim_end()));
    assert!(bound.contains("\nkey = \"k\"\n"));
    assert_eq!(update_config("x", "k", true).unwrap_err().kind, ErrorKind::KeyInUse);
}

#[test]
fn long_keys_are_bound_unless_their_expression_is_too_large() {
    let key = "a".repeat(100_000);
    let (updated, changed) = add_keybinding_config("", &key).unwrap();
    assert!(changed);
    assert!(updated.contains(&format!("key = \"{key}\"\n")));
    let taken = format!("key = \"{key}\"\n");
    let error = add_keybinding_config(&taken, &key).unwrap_err();
    assert_eq!(error.kind, ErrorKind::KeyInUse);
    let escaped = "+-".repeat(50_000);
    assert!(add_keybinding_config("", &escaped).is_ok());
    if usize::BITS == 64 {
        let error = add_keybinding_config("", &"a".repeat(400_000)).unwrap_err();
        assert_eq!(error.kind, ErrorKind::InvalidKeyPattern);
        assert_eq!(error.message(), "Compiled regex exceeds size limit of 10485760 bytes.");
    }
}

#[test]
fn configuring_again_changes_nothing_without_an_old_description() {
    let legacy = "[[keys.command]]\nkey = \"prefix+d\"\n\
                  command = \"kosukeyano.remote-download.download\"\n";
    for content in ["", "[worktrees]\n", legacy] {
        let (updated, changed) = add_keybinding_config(content, "prefix+d").unwrap();
        assert!(changed);
        assert_ne!(updated, content);
        for key in ["prefix+d", "prefix+e", "not a key"] {
            assert_eq!(add_keybinding_config(&updated, key).unwrap(), (updated.clone(), false));
        }
    }
    let twice = format!("{PICK_ACTION}\n{0}\n{0}\n", LEGACY_LINE);
    let (once, changed) = add_keybinding_config(&twice, "prefix+d").unwrap();
    assert!(changed);
    let (both, changed) = add_keybinding_config(&once, "prefix+d").unwrap();
    assert!(changed);
    assert_ne!(once, both);
    assert_eq!(add_keybinding_config(&both, "prefix+d").unwrap(), (both.clone(), false));
}

#[test]
fn bound_keys_are_found_line_by_line() {
    for taken in [
        "key=\"prefix+d\"",
        "[keys]\nkey \t=\u{3000} \"prefix+d\"  \r\nnext",
        "key =\n\"prefix+d\"\n\n",
    ] {
        let error = add_keybinding_config(taken, "prefix+d").unwrap_err();
        assert_eq!(error.message(), "keybinding is already in use: prefix+d", "{taken}");
    }
    for free in [
        " key = \"prefix+d\"",
        "akey = \"prefix+d\"",
        "key = \"prefix+d\" # taken",
        "key = \"prefixxd\"",
        "key = \"prefix+d",
        "key = prefix+d",
        "Key = \"prefix+d\"",
    ] {
        let (updated, changed) = add_keybinding_config(free, "prefix+d").unwrap();
        assert!(changed, "{free}");
        assert!(updated.contains("\nkey = \"prefix+d\"\n"), "{free}");
    }
}
