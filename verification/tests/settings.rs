//! Options, places, the service and the picker.
use herdr_remote_download::error::ErrorKind;
use herdr_remote_download::picker::{
    key_to_char, screen_layout, status_text, visible_wrap_width, Key,
};
use herdr_remote_download::sender::ReceiverEndpoint;
use herdr_remote_download::service::{
    command_detail, launchd_domain, launchd_plist, launchd_service, log_path, plist_path,
    service_kind, status_command, systemd_unit, temporary_binary_name, temporary_path, unit_file_name, unit_path,
    xml_escape, ServiceKind, ServiceTask,
};
use herdr_remote_download::settings::{
    backup_file_name, bytes_from_megabytes, default_config_dir, default_data_dir,
    default_download_dir, default_herdr_config_path, default_max_megabytes,
    default_remote_socket_path, default_token_path, endpoint_for_context, endpoint_for_send,
    remote_user, sender_token_path, temporary_config_name, TokenPlaces, DEFAULT_MAX_BYTES,
    DEFAULT_PORT, DEFAULT_TIMEOUT_SECONDS, PLUGIN_ID,
};

#[test]
fn max_megabytes_is_checked() {
    assert!(bytes_from_megabytes(0).is_err());
    assert!(bytes_from_megabytes(u64::MAX).is_err());
    assert_eq!(bytes_from_megabytes(2).unwrap(), 2 * 1024 * 1024);
}

#[test]
fn megabytes_out_of_range_are_told_apart() {
    assert_eq!(
        bytes_from_megabytes(0).err().unwrap().message(),
        "--max-mb must be greater than zero"
    );
    assert_eq!(bytes_from_megabytes(1 << 44).err().unwrap().message(), "--max-mb is too large");
    assert_eq!(bytes_from_megabytes((1 << 44) - 1).unwrap(), u64::MAX - 1024 * 1024 + 1);
    assert_eq!(default_max_megabytes(), 512);
    assert_eq!(bytes_from_megabytes(default_max_megabytes()).unwrap(), DEFAULT_MAX_BYTES);
}

#[test]
fn constants_are_as_documented() {
    assert_eq!(PLUGIN_ID, "kosukeyano.remote-download");
    assert_eq!(DEFAULT_PORT, 18_340);
    assert_eq!(DEFAULT_MAX_BYTES, 512 * 1024 * 1024);
    assert_eq!(DEFAULT_TIMEOUT_SECONDS, 300);
}

#[test]
fn visible_width_excludes_the_terminal_right_edge() {
    assert_eq!(visible_wrap_width(118), 117);
    assert_eq!(visible_wrap_width(1), 1);
}

#[test]
fn tab_is_not_used_for_multi_select() {
    assert_eq!(key_to_char(Key::Other, false), None);
}

#[test]
fn keys_stand_for_characters() {
    assert_eq!(visible_wrap_width(0), 0);
    assert_eq!(visible_wrap_width(2), 1);
    assert_eq!(key_to_char(Key::Escape, false), Some('\u{1b}'));
    assert_eq!(key_to_char(Key::Backspace, false), Some('\u{7f}'));
    assert_eq!(key_to_char(Key::Character('a'), false), Some('a'));
    assert_eq!(key_to_char(Key::Character('c'), true), Some('\u{3}'));
    assert_eq!(key_to_char(Key::Character('C'), true), Some('\u{3}'));
    assert_eq!(key_to_char(Key::Character('a'), true), None);
    assert_eq!(key_to_char(Key::Escape, true), None);
}

#[test]
fn status_lines_fit() {
    let full = " download  files:12  input:ab  esc:close ";
    let compact = " download files:12 input:ab ";
    assert_eq!(status_text(12, "ab", full.len()), full);
    assert_eq!(status_text(12, "ab", full.len() - 1), compact);
    assert_eq!(status_text(12, "ab", 9), " download");
    assert_eq!(status_text(12, "ab", 0), "");
    assert_eq!(status_text(0, "", 80), " download  files:0  input:-  esc:close ");
    assert_eq!(screen_layout(0, 24), (23, Some(23)));
    assert_eq!(screen_layout(3, 1), (0, Some(3)));
    assert_eq!(screen_layout(3, 0), (0, None));
}

#[test]
fn launchd_uses_rust_binary_and_loopback() {
    let plist = launchd_plist(
        "/tmp/herdr-remote-download",
        "/tmp/token",
        "/tmp/downloads",
        DEFAULT_PORT,
        "/tmp/download.log",
    );
    assert!(plist.contains("<string>/tmp/herdr-remote-download</string>"));
    assert!(plist.contains("<string>127.0.0.1</string>"));
    assert!(plist.contains("<string>18340</string>"));
    assert!(plist.contains("<string>Interactive</string>"));
    assert!(!plist.contains("python"));
}

#[test]
fn launchd_plist_is_spelled_out() {
    let plist = launchd_plist("/b&b", "/t", "/d", 80, "/l<o>g");
    let expected = r#"<?xml version="1.0" encoding="UTF-8"?>
<!DOCTYPE plist PUBLIC "-//Apple//DTD PLIST 1.0//EN" "http://www.apple.com/DTDs/PropertyList-1.0.dtd">
<plist version="1.0">
<dict>
  <key>Label</key>
  <string>com.kosukeyano.herdr-remote-download</string>
  <key>ProgramArguments</key>
  <array>
      <string>/b&amp;b</string>
      <string>serve</string>
      <string>--host</string>
      <string>127.0.0.1</string>
      <string>--port</string>
      <string>80</string>
      <string>--download-dir</string>
      <string>/d</string>
      <string>--token-file</string>
      <string>/t</string>
  </array>
  <key>RunAtLoad</key>
  <true/>
  <key>KeepAlive</key>
  <true/>
  <key>ProcessType</key>
  <string>Interactive</string>
  <key>StandardOutPath</key>
  <string>/l&lt;o&gt;g</string>
  <key>StandardErrorPath</key>
  <string>/l&lt;o&gt;g</string>
</dict>
</plist>
"#;
    assert_eq!(plist, expected);
    assert_eq!(xml_escape("a&b<c>d\"e'f&amp;"), "a&amp;b&lt;c&gt;d&quot;e&apos;f&amp;amp;");
}

#[test]
fn systemd_unit_runs_the_rust_binary() {
    let unit = systemd_unit(
        "/home/user/.local/share/herdr-remote-download/herdr-remote-download",
        "/home/user/.config/herdr-remote-download/token",
        "/home/user/Downloads",
        DEFAULT_PORT,
    );
    assert!(unit.contains("ExecStart=/home/user/.local/share/herdr-remote-download/herdr-remote-download serve --host 127.0.0.1 --port 18340"));
    assert!(unit.contains("Restart=always"));
    assert!(unit.contains("WantedBy=default.target"));
}

#[test]
fn systemd_unit_is_spelled_out() {
    let expected = "[Unit]\nDescription=Herdr remote download receiver\n\n[Service]\n\
                    ExecStart=/b serve --host 127.0.0.1 --port 80 --download-dir /d --token-file /t\n\
                    Restart=always\n\n[Install]\nWantedBy=default.target\n";
    assert_eq!(systemd_unit("/b", "/t", "/d", 80), expected);
}

#[test]
fn services_have_their_places() {
    assert_eq!(service_kind("macos", ServiceTask::Install).unwrap(), ServiceKind::Launchd);
    assert_eq!(service_kind("linux", ServiceTask::Status).unwrap(), ServiceKind::Systemd);
    assert_eq!(
        service_kind("windows", ServiceTask::Install).err().unwrap().message(),
        "service installation requires macOS or Linux"
    );
    assert_eq!(
        service_kind("windows", ServiceTask::Status).err().unwrap().message(),
        "service status requires macOS or Linux"
    );
    assert_eq!(unit_file_name(), "com.kosukeyano.herdr-remote-download.service");
    assert_eq!(
        unit_path("/h"),
        "/h/.config/systemd/user/com.kosukeyano.herdr-remote-download.service"
    );
    assert_eq!(
        plist_path("/h"),
        "/h/Library/LaunchAgents/com.kosukeyano.herdr-remote-download.plist"
    );
    assert_eq!(log_path("/h"), "/h/Library/Logs/herdr-remote-download.log");
    assert_eq!(temporary_path("/h/a.plist", 42), "/h/a.plist.tmp-42");
    assert_eq!(temporary_binary_name(42), ".herdr-remote-download-install-42");
    assert_eq!(launchd_domain("501"), "gui/501");
    assert_eq!(launchd_service("501"), "gui/501/com.kosukeyano.herdr-remote-download");
    assert_eq!(command_detail(" out ", ""), "out");
    assert_eq!(command_detail("out", " error\n"), "error");
}

#[test]
fn directories_come_from_the_environment() {
    let home = Some("/home/user");
    assert_eq!(
        default_config_dir(None, home).unwrap(),
        "/home/user/.config/herdr-remote-download"
    );
    assert_eq!(default_config_dir(Some("/x"), None).unwrap(), "/x/herdr-remote-download");
    assert_eq!(
        default_config_dir(Some("~/x"), home).unwrap(),
        "/home/user/x/herdr-remote-download"
    );
    assert_eq!(
        default_token_path(None, home).unwrap(),
        "/home/user/.config/herdr-remote-download/token"
    );
    assert_eq!(
        default_data_dir(None, home).unwrap(),
        "/home/user/.local/share/herdr-remote-download"
    );
    assert_eq!(default_data_dir(Some("/y"), home).unwrap(), "/y/herdr-remote-download");
    assert_eq!(default_download_dir(home).unwrap(), "/home/user/Downloads");
    assert_eq!(
        default_herdr_config_path(home).unwrap(),
        "/home/user/.config/herdr/config.toml"
    );
    for error in [
        default_config_dir(None, None).err(),
        default_config_dir(Some("~"), None).err(),
        default_token_path(None, None).err(),
        default_data_dir(None, None).err(),
        default_download_dir(None).err(),
        default_herdr_config_path(None).err(),
    ] {
        let error = error.unwrap();
        assert_eq!(error.kind, ErrorKind::HomeNotSet);
        assert_eq!(error.message(), "HOME is not set");
    }
}

#[test]
fn sockets_belong_to_users() {
    assert_eq!(remote_user(Some("ann"), Some("bob"), Err("no")).unwrap(), "ann");
    assert_eq!(remote_user(None, Some("bob"), Err("no")).unwrap(), "bob");
    assert_eq!(remote_user(None, None, Ok("carol\n")).unwrap(), "carol");
    assert_eq!(
        remote_user(None, None, Err("no id")).err().unwrap().message(),
        "could not determine the remote user name: no id"
    );
    assert_eq!(
        default_remote_socket_path("ann").unwrap(),
        "/tmp/herdr-remote-download-ann.sock"
    );
    for user in ["", "a/b", "a\0b"] {
        assert_eq!(
            default_remote_socket_path(user).err().unwrap().message(),
            "unsupported remote user name"
        );
    }
}

#[test]
fn endpoints_follow_the_options() {
    let shown = |endpoint: ReceiverEndpoint| endpoint.display();
    assert_eq!(shown(endpoint_for_context(Some("/s"), "").unwrap()), "/s");
    assert_eq!(
        shown(endpoint_for_context(None, "ann").unwrap()),
        "/tmp/herdr-remote-download-ann.sock"
    );
    assert!(endpoint_for_context(None, "").is_err());
    assert_eq!(shown(endpoint_for_send("h", 80, Some("/s"))), "/s");
    assert_eq!(shown(endpoint_for_send("h", 80, None)), "h:80");
}

#[test]
fn sender_token_is_looked_for_in_turn() {
    let yes = |_: &str| true;
    let no = |_: &str| false;
    let places = |file, directory| TokenPlaces {
        file,
        directory,
        config_home: None,
        home: Some("/home/user"),
    };
    assert_eq!(sender_token_path(&places(Some("~/t"), Some("/p")), &yes).unwrap(), "/home/user/t");
    assert_eq!(sender_token_path(&places(None, Some("/p")), &yes).unwrap(), "/p/token");
    let fallback = "/home/user/.config/herdr-remote-download/token";
    assert_eq!(sender_token_path(&places(None, Some("/p")), &no).unwrap(), fallback);
    assert_eq!(sender_token_path(&places(None, None), &yes).unwrap(), fallback);
}

#[test]
fn rewritten_files_have_names() {
    assert_eq!(
        backup_file_name(Some("config.toml")),
        "config.toml.before-herdr-remote-download.bak"
    );
    assert_eq!(backup_file_name(None), "config.toml.before-herdr-remote-download.bak");
    assert_eq!(temporary_config_name("config.toml", 42), "config.toml.tmp-42");
    assert_eq!(temporary_config_name("config", 42), "config.toml.tmp-42");
    assert_eq!(temporary_config_name("a.b.conf", 42), "a.b.toml.tmp-42");
}

#[test]
fn the_status_command_is_that_of_the_service() {
    assert_eq!(
        status_command(ServiceKind::Launchd, "501"),
        ["/bin/launchctl", "print", "gui/501/com.kosukeyano.herdr-remote-download"]
    );
    assert_eq!(
        status_command(ServiceKind::Systemd, ""),
        [
            "systemctl",
            "--user",
            "is-active",
            "--quiet",
            "com.kosukeyano.herdr-remote-download.service"
        ]
    );
}
