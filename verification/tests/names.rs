//! Names, paths, tokens and encodings.
use herdr_remote_download::archive::{entry_action, extraction_search, EntryAction, EntryKind};
use herdr_remote_download::chooser::{check_picker_system, picker_failure, picker_paths};
use herdr_remote_download::digest::{checksum_of, Checksum};
use herdr_remote_download::encoding::{
    bytes_to_hex, constant_time_eq, decode_header_value, encode_header_value, hex_value,
    percent_decode,
};
use herdr_remote_download::error::{ErrorKind, TransferError};
use herdr_remote_download::filename::{
    archive_name_of, candidate_name_of, clean_filename, destination_candidates,
    extraction_name_of, extraction_stem_of, temporary_archive_name, Creation, NameSearch, Purpose,
    SearchStep, MAX_CANDIDATES,
};
use herdr_remote_download::paths::{
    ensure_safe_entry_path, expand_home, expand_home_if_known, file_name_of, home_dir, joined,
};
use herdr_remote_download::text::{control, decimal_text, number_of, space, split_words};
use herdr_remote_download::token::{
    authorization, authorized, token_file_text, token_from_random, validate_token, TokenAction,
    TokenEvent, TokenSetup,
};

#[test]
fn archive_extraction_rejects_unsafe_paths() {
    assert!(ensure_safe_entry_path("ok/nested.txt").is_ok());
    assert!(ensure_safe_entry_path("/etc/passwd").is_err());
    assert!(ensure_safe_entry_path("../escape.txt").is_err());
    assert!(ensure_safe_entry_path("a/../../escape.txt").is_err());
}

#[test]
fn entries_are_restored_or_skipped() {
    assert_eq!(entry_action(EntryKind::Regular, "a").unwrap(), EntryAction::Unpack);
    assert_eq!(entry_action(EntryKind::Directory, "./a/").unwrap(), EntryAction::Unpack);
    assert_eq!(entry_action(EntryKind::Other, "a").unwrap(), EntryAction::Skip);
    assert_eq!(
        entry_action(EntryKind::Other, "../a").err().unwrap().message(),
        "archive contains an unsafe path: ../a"
    );
    assert!(ensure_safe_entry_path("a..b/..c").is_ok());
    assert!(extraction_search("a/..").is_err());
    assert_eq!(extraction_search("x/ b ").unwrap().name(), "b");
}

#[test]
fn filenames_are_cleaned() {
    assert_eq!(clean_filename("a.txt").unwrap(), "a.txt");
    assert_eq!(clean_filename("/x/y\\ a.txt ").unwrap(), "a.txt");
    assert_eq!(clean_filename("日本語.pdf").unwrap(), "日本語.pdf");
    assert_eq!(clean_filename(&"a".repeat(240)).unwrap(), "a".repeat(240));
    let long = "é".repeat(121);
    for name in ["", "  ", ".", "..", "a/", "x/..", "a\0b", "a\u{1b}b", "a\u{85}b", long.as_str()] {
        let error = clean_filename(name).unwrap_err();
        assert_eq!(error.kind, ErrorKind::UnsafeFilename);
        assert_eq!(error.message(), "unsafe or unsupported filename");
    }
    let cleaned = clean_filename(" a b ").unwrap();
    assert_eq!(clean_filename(&cleaned).unwrap(), cleaned);
}

#[test]
fn candidates_are_numbered() {
    assert_eq!(candidate_name_of("report.txt", 0), "report.txt");
    assert_eq!(candidate_name_of("report.txt", 1), "report (1).txt");
    assert_eq!(candidate_name_of("a.tar.gz", 12), "a.tar (12).gz");
    assert_eq!(candidate_name_of("README", 1), "README (1)");
    assert_eq!(candidate_name_of(".profile", 1), ".profile (1)");
    assert_eq!(candidate_name_of("a.", 1), "a (1).");
    assert_eq!(extraction_name_of("my.dir", 0), "my.dir");
    assert_eq!(extraction_name_of("my.dir", 3), "my.dir (3)");
    let all = destination_candidates("/d", "a.txt");
    assert_eq!(all.len(), 10_000);
    assert_eq!(all[0], "/d/a.txt");
    assert_eq!(all[9_999], "/d/a (9999).txt");
}

#[test]
fn archives_are_named() {
    assert_eq!(archive_name_of("mydir"), "mydir.tar.gz");
    assert_eq!(extraction_stem_of("mydir.tar.gz"), "mydir");
    assert_eq!(extraction_stem_of("a.tgz"), "a");
    assert_eq!(extraction_stem_of("a.zip"), "a.zip");
    assert_eq!(extraction_stem_of(".tar.gz"), "");
    assert_eq!(temporary_archive_name(7, 123), "herdr-archive-7-123.tar.gz");
}

fn walk(purpose: Purpose, taken: u32, end: Creation) -> Result<String, TransferError> {
    let mut search = NameSearch::new(purpose);
    let mut end = Some(end);
    let mut seen = 0;
    loop {
        let outcome = if seen < taken { Creation::AlreadyExists } else { end.take().unwrap() };
        seen += 1;
        match search.advance(outcome) {
            SearchStep::Try(name) => assert_eq!(name, search.name()),
            SearchStep::Found(name) => return Ok(name),
            SearchStep::Stopped(error) => return Err(error),
        }
    }
}

#[test]
fn free_names_are_searched_for() {
    let destination = || Purpose::Destination { filename: "a.txt".to_string() };
    let extraction = || Purpose::Extraction { name: "a".to_string() };
    let temporary = || Purpose::Temporary { process: 7, moment: 9 };
    assert_eq!(walk(destination(), 0, Creation::Created).unwrap(), "a.txt");
    assert_eq!(walk(destination(), 2, Creation::Created).unwrap(), "a (2).txt");
    assert_eq!(walk(extraction(), 2, Creation::Created).unwrap(), "a (2)");
    assert_eq!(walk(temporary(), 2, Creation::Created).unwrap(), ".herdr-download-7-9-2.part");
    let told = |r: Result<String, TransferError>| r.unwrap_err().message();
    assert_eq!(
        told(walk(destination(), MAX_CANDIDATES, Creation::Created)),
        "could not allocate a unique destination filename"
    );
    assert_eq!(
        told(walk(extraction(), MAX_CANDIDATES, Creation::Created)),
        "could not allocate a unique extraction directory"
    );
    assert_eq!(
        told(walk(temporary(), 100, Creation::Created)),
        "could not allocate a temporary file"
    );
    let failed = || Creation::Failed("full".to_string());
    assert_eq!(told(walk(destination(), 1, failed())), "cannot commit downloaded file: full");
    assert_eq!(told(walk(extraction(), 1, failed())), "cannot create extraction directory: full");
    assert_eq!(told(walk(temporary(), 1, failed())), "cannot create temporary file: full");
}

#[test]
fn paths_are_joined_and_expanded() {
    assert_eq!(joined("/a", "b"), "/a/b");
    assert_eq!(joined("/a/", "b"), "/a/b");
    assert_eq!(joined("/a", "/b"), "/b");
    assert_eq!(joined("", "b"), "b");
    assert_eq!(home_dir(Some("/h")).unwrap(), "/h");
    assert_eq!(home_dir(None).unwrap_err().message(), "HOME is not set");
    assert_eq!(expand_home("~", Some("/h")).unwrap(), "/h");
    assert_eq!(expand_home("~/a", Some("/h")).unwrap(), "/h/a");
    assert_eq!(expand_home("~a", None).unwrap(), "~a");
    assert_eq!(expand_home("~/a", None).unwrap_err().kind, ErrorKind::HomeNotSet);
    assert_eq!(expand_home_if_known("~/a", None), "~/a");
    let name = |path: &str| -> Option<String> {
        let chars: Vec<char> = path.chars().collect();
        file_name_of(&chars).map(|name| name.iter().collect())
    };
    assert_eq!(name("/a/b.txt"), Some("b.txt".to_string()));
    assert_eq!(name("/a/b/"), Some("b".to_string()));
    assert_eq!(name("/a/.."), None);
    assert_eq!(name("/"), None);
}

#[test]
fn tokens_are_validated() {
    let token = "Ab".repeat(32);
    assert_eq!(validate_token(&format!(" {token}\n")).unwrap(), "ab".repeat(32));
    for wrong in ["", "ab", &"ag".repeat(32), &"a".repeat(65), &"é".repeat(32)] {
        assert_eq!(
            validate_token(wrong).unwrap_err().message(),
            "token must contain exactly 64 hexadecimal characters"
        );
    }
    let random: Vec<u8> = (0..32).collect();
    let made = token_from_random(&random);
    assert_eq!(made, "000102030405060708090a0b0c0d0e0f101112131415161718191a1b1c1d1e1f");
    assert_eq!(token_file_text(&made), format!("{made}\n"));
    assert_eq!(validate_token(&token_file_text(&made)).unwrap(), made);
    assert_eq!(authorization("t"), "Bearer t");
    assert!(authorized("t", Some("Bearer t")));
    assert!(!authorized("t", Some("bearer t")));
    assert!(!authorized("t", Some("Bearer u")));
    assert!(!authorized("t", None));
}

#[test]
fn header_values_are_encoded() {
    assert_eq!(encode_header_value("a b.txt"), "YSBiLnR4dA");
    assert_eq!(encode_header_value("??>"), "Pz8-");
    assert_eq!(encode_header_value("???"), "Pz8_");
    assert_eq!(decode_header_value("YSBiLnR4dA").unwrap(), "a b.txt");
    let name = "日本語 (1).pdf";
    assert_eq!(decode_header_value(&encode_header_value(name)).unwrap(), name);
    assert_eq!(decode_header_value("").unwrap_err().kind, ErrorKind::InvalidEncodedFilename);
    let long = encode_header_value(&"a".repeat(768));
    assert_eq!(long.len(), 1024);
    assert_eq!(decode_header_value(&long).unwrap(), "a".repeat(768));
    let longer = encode_header_value(&"a".repeat(769));
    assert_eq!(decode_header_value(&longer).unwrap_err().message(), "invalid encoded filename");
    for (wrong, words) in [
        ("YSBiLnR4dA==", "Invalid padding"),
        ("%", "Invalid symbol 37, offset 0."),
        ("YQ YQ", "Invalid symbol 32, offset 2."),
        ("A", "Invalid input length: 1"),
        ("YR", "Invalid last symbol 82, offset 1."),
        ("_w", "invalid utf-8 sequence of 1 bytes from index 0"),
    ] {
        let error = decode_header_value(wrong).unwrap_err();
        assert_eq!(error.kind, ErrorKind::UndecodableFilename);
        assert_eq!(error.message(), format!("invalid encoded filename: {words}"));
    }
    for (value, encoded) in [
        ("", ""),
        ("f", "Zg"),
        ("fo", "Zm8"),
        ("foo", "Zm9v"),
        ("foob", "Zm9vYg"),
        ("~~?", "fn4_"),
        ("~~>", "fn4-"),
        ("äöü", "w6TDtsO8"),
    ] {
        assert_eq!(encode_header_value(value), encoded);
    }
}

#[test]
fn bytes_are_spelled_in_hexadecimal() {
    assert_eq!(bytes_to_hex(&[]), "");
    assert_eq!(bytes_to_hex(&[0, 15, 16, 255]), "000f10ff");
    for byte in 0..=255_u8 {
        assert_eq!(hex_value(byte), (byte as char).to_digit(16).map(|digit| digit as u8));
    }
    assert!(constant_time_eq(b"ab", b"ab"));
    assert!(!constant_time_eq(b"ab", b"ac"));
    assert!(!constant_time_eq(b"ab", b"abc"));
}

#[test]
fn percent_escapes_are_decoded() {
    assert_eq!(percent_decode("/a%20b%2Fc").unwrap(), "/a b/c");
    assert_eq!(percent_decode("%E6%97%A5").unwrap(), "日");
    assert_eq!(percent_decode("").unwrap(), "");
    for wrong in ["%", "%4", "a%g0", "%0g"] {
        assert_eq!(
            percent_decode(wrong).unwrap_err().message(),
            "invalid percent encoding in file URL"
        );
    }
    assert_eq!(percent_decode("%c3").unwrap_err().kind, ErrorKind::UrlNotUtf8);
    assert_eq!(
        percent_decode("%c3").unwrap_err().message(),
        "file URL path is not valid UTF-8: incomplete utf-8 byte sequence from index 0"
    );
}

#[test]
fn checksums_are_those_of_sha256() {
    let empty = "e3b0c44298fc1c149afbf4c8996fb92427ae41e4649b934ca495991b7852b855";
    let abc = "ba7816bf8f01cfea414140de5dae2223b00361a396177a9cb410ff61f20015ad";
    assert_eq!(checksum_of(b""), empty);
    assert_eq!(checksum_of(b"abc"), abc);
    let mut pieces = Checksum::new();
    pieces.update(b"a");
    pieces.update(b"");
    pieces.update(b"bc");
    assert_eq!(pieces.measured(), 3);
    assert_eq!(pieces.finish(), abc);
}

#[test]
fn the_file_picker_is_understood() {
    assert!(check_picker_system("macos").is_ok());
    assert_eq!(
        check_picker_system("linux").unwrap_err().message(),
        "the connected file picker service must run on macOS"
    );
    let paths = |output: &[u8]| picker_paths(output.to_vec());
    assert_eq!(paths(b"/a\n").unwrap(), ["/a"]);
    assert_eq!(paths(b"/a\0/b c\n").unwrap(), ["/a", "/b c"]);
    assert_eq!(paths(b"/a\n\n").unwrap(), ["/a\n"]);
    assert_eq!(paths(b"").unwrap(), [""]);
    let error = paths(b"/\xff\n").unwrap_err();
    assert_eq!(error.kind, ErrorKind::PickerNotUtf8);
    assert_eq!(
        error.message(),
        "file picker returned invalid UTF-8: invalid utf-8 sequence of 1 bytes from index 1"
    );
    assert_eq!(
        picker_failure("execution error: User canceled. (-128)\n").message(),
        "file selection was cancelled"
    );
    assert_eq!(picker_failure("(-128)").kind, ErrorKind::PickerCancelled);
    assert_eq!(picker_failure(" boom \n").message(), "macOS file picker failed: boom");
    assert_eq!(picker_failure(" ").message(), "macOS file picker failed: unknown error");
}

#[test]
fn character_classes_are_those_of_unicode() {
    for c in '\0'..=char::MAX {
        assert_eq!(space(c), c.is_whitespace(), "{:?}", c);
        assert_eq!(control(c), c.is_control(), "{:?}", c);
    }
}

#[test]
fn numbers_are_read_and_written() {
    let number = |text: &str, max: u64| {
        let chars: Vec<char> = text.chars().collect();
        number_of(&chars, max)
    };
    for text in ["0", "7", "007", "+7", "+", "", "-1", "1a", " 1", "18446744073709551615", "18446744073709551616"] {
        assert_eq!(number(text, u64::MAX), text.parse::<u64>().ok(), "{text}");
        assert_eq!(number(text, 65_535), text.parse::<u16>().ok().map(u64::from), "{text}");
    }
    assert_eq!(decimal_text(0), "0");
    assert_eq!(decimal_text(1_234_567_890), "1234567890");
    assert_eq!(decimal_text(u128::MAX), u128::MAX.to_string());
    let line: Vec<char> = " a\tbc \u{3000}d\r\n".chars().collect();
    let words: Vec<String> = split_words(&line).iter().map(|word| word.iter().collect()).collect();
    assert_eq!(words, ["a", "bc", "d"]);
}

fn token_result(action: TokenAction) -> (bool, Result<String, String>) {
    match action {
        TokenAction::Finish { remove_file, result } => {
            (remove_file, result.map_err(|error| error.message()))
        }
        _ => panic!("the token file is not finished"),
    }
}

#[test]
fn token_files_are_made_once() {
    let token = "0102".repeat(16);
    let random: [u8; 32] = std::array::from_fn(|index| 1 + index as u8 % 2);
    let created = || {
        let mut setup = TokenSetup::new();
        assert!(matches!(setup.pending(), TokenAction::Look));
        assert!(matches!(setup.step(TokenEvent::Found(false)), TokenAction::Prepare));
        assert!(matches!(setup.step(TokenEvent::Taken), TokenAction::Prepare));
        assert!(matches!(setup.step(TokenEvent::Done), TokenAction::Draw));
        assert!(matches!(setup.step(TokenEvent::Drawn(random)), TokenAction::Create));
        setup
    };

    let mut setup = created();
    match setup.step(TokenEvent::Done) {
        TokenAction::Write(text) => assert_eq!(text, format!("{token}\n")),
        _ => panic!("nothing is written"),
    }
    assert_eq!(token_result(setup.step(TokenEvent::Done)), (false, Ok(token.clone())));
    assert!(matches!(setup.step(TokenEvent::Done), TokenAction::Rest));

    let mut setup = created();
    setup.step(TokenEvent::Done);
    let failed = setup.step(TokenEvent::Failed("cannot write token file: full".to_string()));
    assert_eq!(token_result(failed), (true, Err("cannot write token file: full".to_string())));

    let mut setup = created();
    let failed = setup.step(TokenEvent::Failed("denied".to_string()));
    assert_eq!(token_result(failed), (false, Err("denied".to_string())));
}

#[test]
fn existing_tokens_are_used_again() {
    let token = "ab".repeat(32);
    let mut setup = TokenSetup::new();
    assert!(matches!(setup.step(TokenEvent::Found(true)), TokenAction::Read));
    let text = format!(" {}\n", token.to_uppercase());
    assert_eq!(token_result(setup.step(TokenEvent::Text(text))), (false, Ok(token.clone())));

    let mut setup = TokenSetup::new();
    setup.step(TokenEvent::Found(false));
    setup.step(TokenEvent::Done);
    setup.step(TokenEvent::Drawn([7; 32]));
    assert!(matches!(setup.step(TokenEvent::Taken), TokenAction::Read));
    let read = setup.step(TokenEvent::Text(token.clone()));
    assert_eq!(token_result(read), (false, Ok(token)));

    let mut setup = TokenSetup::new();
    setup.step(TokenEvent::Found(true));
    let read = setup.step(TokenEvent::Text("short".to_string()));
    assert_eq!(
        token_result(read),
        (false, Err("token must contain exactly 64 hexadecimal characters".to_string()))
    );
}
