use coconut::accounts::{
    account_from_record, account_initial, account_label, display_name, list_accounts, location,
    passwd_accounts, split_real_name, Account,
};
use coconut::fields::integer_input;
use coconut::launcher::{parse_exec, parse_launcher};
use coconut::user_dirs::{desktop_dir_from_user_dirs, pictures_dir_from_user_dirs};
use std::path::PathBuf;

#[test]
fn exec_lines_split_on_whitespace_outside_quotes() {
    assert_eq!(parse_exec("firefox --new-window"), vec!["firefox", "--new-window"]);
    assert_eq!(
        parse_exec("sh -c 'echo hello world'"),
        vec!["sh", "-c", "echo hello world"]
    );
    assert_eq!(parse_exec("\"my app\" \"it's\""), vec!["my app", "it's"]);
}

#[test]
fn exec_field_codes_and_escapes() {
    assert_eq!(parse_exec("gimp %U"), vec!["gimp"]);
    assert_eq!(parse_exec("code --file %f extra"), vec!["code", "--file", "extra"]);
    assert_eq!(parse_exec("say a\\ b"), vec!["say", "a b"]);
    assert!(parse_exec("   ").is_empty());
}

#[test]
fn launcher_files_are_read_from_the_desktop_entry_group() {
    let contents = "[Desktop Entry]\nType=Application\nName=Editor\nName[en]=English Editor\nExec=editor %F --wait\nIcon=accessories-text-editor\nTerminal=true\n[Desktop Action New]\nName=New Window\n";
    let entry = parse_launcher(contents).expect("a visible application");
    assert_eq!(entry.label, "English Editor");
    assert_eq!(entry.program, "editor");
    assert_eq!(entry.args, vec!["--wait"]);
    assert_eq!(entry.icon.as_deref(), Some("accessories-text-editor"));
    assert!(entry.terminal);
}

#[test]
fn hidden_or_non_application_launchers_are_skipped() {
    assert!(parse_launcher("[Desktop Entry]\nType=Link\nName=Site\nExec=xdg-open x\n").is_none());
    assert!(parse_launcher("[Desktop Entry]\nType=Application\nName=A\nExec=a\nNoDisplay=true\n").is_none());
    assert!(parse_launcher("[Desktop Entry]\nType=Application\nName=A\nExec=a\nHidden=true\n").is_none());
    assert!(parse_launcher("[Desktop Entry]\nType=Application\nName=A\n").is_none());
    assert!(parse_launcher("[Desktop Entry]\nType=Application\nExec=a\n").is_none());
    assert!(parse_launcher("[Other]\nType=Application\nName=A\nExec=a\n").is_none());
}

#[test]
fn later_launcher_keys_override_earlier_ones() {
    let entry = parse_launcher("[Desktop Entry]\r\nType=Application\r\nName=First\r\nName=Second\r\nExec=app\r\n")
        .expect("a visible application");
    assert_eq!(entry.label, "Second");
    assert!(!entry.terminal);
    assert!(entry.icon.is_none());
}

#[test]
fn passwd_lists_only_login_accounts() {
    let contents = "root:x:0:0:root:/root:/bin/bash\nalice:x:1000:1000:Alice Liddell,,,:/home/alice:/bin/zsh\nsvc:x:1001:1001::/srv:/usr/sbin/nologin\nbob:x:1002:1002:Bob:/home/bob:/bin/false\ncarol:x:abc:1:Carol:/home/carol:/bin/sh\ndave:x:1003:1003:Dave\n";
    let accounts = passwd_accounts(contents);
    assert_eq!(accounts.len(), 1);
    assert_eq!(accounts[0].username, "alice");
    assert_eq!(accounts[0].real_name, "Alice Liddell");
    assert!(!accounts[0].administrator);
    assert!(accounts[0].icon_path.is_none());
}

#[test]
fn account_listing_prefers_the_account_service() {
    let reported = vec![
        Account { username: "ann".to_owned(), real_name: "Ann".to_owned(), administrator: true, icon_path: None },
        Account { username: String::new(), real_name: "Ghost".to_owned(), administrator: false, icon_path: None },
    ];
    let passwd = "zed:x:1000:1000:Zed:/home/zed:/bin/sh\n".to_owned();
    let accounts = list_accounts(Some(reported), Some(passwd.clone()));
    assert_eq!(accounts.len(), 1);
    assert_eq!(accounts[0].username, "ann");
    let fallback = list_accounts(None, Some(passwd));
    assert_eq!(fallback.len(), 1);
    assert_eq!(fallback[0].username, "zed");
    assert!(list_accounts(None, None).is_empty());
}

#[test]
fn account_records_skip_system_accounts() {
    let icon = Some(PathBuf::from("/var/lib/icons/ann"));
    assert!(account_from_record(Some(1), "sys".to_owned(), String::new(), None, None).is_none());
    let account = account_from_record(Some(0), "ann".to_owned(), "Ann".to_owned(), Some(1), icon.clone())
        .expect("a regular account");
    assert!(account.administrator);
    assert_eq!(account.icon_path, icon);
    let standard = account_from_record(None, "bo".to_owned(), "Bo".to_owned(), Some(0), None)
        .expect("a regular account");
    assert!(!standard.administrator);
}

#[test]
fn names_and_places_join_their_non_empty_parts() {
    assert_eq!(display_name("  Ada ", "Lovelace"), "Ada Lovelace");
    assert_eq!(display_name("", " Turing "), "Turing");
    assert_eq!(location("Paris", "", "France"), "Paris, France");
    assert_eq!(location(" ", "", ""), "");
}

#[test]
fn account_labels_fall_back_to_the_user_name() {
    let named = Account { username: "ada".to_owned(), real_name: "Ada".to_owned(), administrator: false, icon_path: None };
    let unnamed = Account { username: "bob".to_owned(), real_name: String::new(), administrator: false, icon_path: None };
    assert_eq!(account_label(&named), "Ada");
    assert_eq!(account_label(&unnamed), "bob");
    assert_eq!(account_initial(&named), 'A');
    assert_eq!(account_initial(&unnamed), 'B');
}

#[test]
fn real_names_split_at_the_first_space() {
    assert_eq!(split_real_name("Ada King Lovelace"), ("Ada".to_owned(), "King Lovelace".to_owned()));
    assert_eq!(split_real_name("Cher"), ("Cher".to_owned(), String::new()));
}

#[test]
fn user_dirs_expand_home_and_strip_quotes() {
    let contents = "# comment\n  XDG_PICTURES_DIR=\"$HOME/Pictures\"\nXDG_DESKTOP_DIR=\"$HOME/Desk\"\n";
    assert_eq!(
        pictures_dir_from_user_dirs(contents, Some("/home/ada")),
        Some("/home/ada/Pictures".to_owned())
    );
    assert_eq!(
        desktop_dir_from_user_dirs(contents, Some("/home/ada")),
        Some("/home/ada/Desk".to_owned())
    );
    assert_eq!(pictures_dir_from_user_dirs(contents, None), None);
}

#[test]
fn the_desktop_key_must_start_its_line() {
    let contents = "  XDG_DESKTOP_DIR=\"$HOME/Desk\"\n";
    assert_eq!(desktop_dir_from_user_dirs(contents, Some("/home/ada")), None);
    assert_eq!(pictures_dir_from_user_dirs("XDG_MUSIC_DIR=x\n", Some("/h")), None);
}

#[test]
fn integer_fields_accept_in_range_values_only() {
    assert_eq!(integer_input("12", 0, Some(20)), Some(12));
    assert_eq!(integer_input("+7", 0, None), Some(7));
    assert_eq!(integer_input("-3", -5, Some(5)), Some(-3));
    assert_eq!(integer_input("21", 0, Some(20)), None);
    assert_eq!(integer_input("-1", 0, None), None);
    assert_eq!(integer_input(" 4", 0, None), None);
    assert_eq!(integer_input("4.5", 0, None), None);
    assert_eq!(integer_input("", 0, None), None);
    assert_eq!(integer_input("-", -10, None), None);
    assert_eq!(integer_input("9223372036854775807", 0, None), Some(i64::MAX));
    assert_eq!(integer_input("9223372036854775808", 0, None), None);
    assert_eq!(integer_input("-9223372036854775808", i64::MIN, None), Some(i64::MIN));
}

#[test]
fn a_last_line_without_newline_keeps_its_carriage_return() {
    let unterminated = "alice:x:1000:1000:Alice:/home/alice:/usr/sbin/nologin\r";
    let accounts = passwd_accounts(unterminated);
    assert_eq!(accounts.len(), 1);
    assert_eq!(accounts[0].username, "alice");
    assert!(passwd_accounts("alice:x:1000:1000:Alice:/home/alice:/usr/sbin/nologin\r\n").is_empty());
    assert_eq!(passwd_accounts("bob:x:1001:1001:Bob:/home/bob:/bin/sh\r\n")[0].username, "bob");
}

#[test]
fn plain_exec_lines_split_like_split_whitespace() {
    for value in ["firefox  --new-window\t%U", "  a b\u{a0}c %f ", "", "%F", "x%y  z"] {
        let expected: Vec<String> = value
            .split_whitespace()
            .filter(|word| !word.starts_with('%'))
            .map(String::from)
            .collect();
        assert_eq!(parse_exec(value), expected);
    }
    for value in ["sh -c 'a %b'", "x\\ %y \"\" ''", "%% a"] {
        assert!(parse_exec(value).iter().all(|word| !word.is_empty() && !word.starts_with('%')));
    }
}
