use claurst::password_store::PasswordStoreError;
use claurst::password_store_ripasso::{scan_action, walk_nodes, DirNode, RipassoPasswordStore, ScanAction};

fn store() -> RipassoPasswordStore {
    RipassoPasswordStore::new("/store".to_string(), vec!["web/site".to_string(), "api".to_string()])
}

#[test]
fn layout_checks_in_order() {
    match RipassoPasswordStore::check_layout("/x", false, false, false) {
        Err(PasswordStoreError::NotInitialized(m)) => assert_eq!(m, "Password store directory does not exist: /x"),
        _ => panic!("expected NotInitialized"),
    }
    match RipassoPasswordStore::check_layout("/x", true, false, false) {
        Err(PasswordStoreError::NotInitialized(m)) => assert_eq!(m, "Not a valid pass store: missing .gpg-id file at /x"),
        _ => panic!("expected NotInitialized"),
    }
    match RipassoPasswordStore::check_layout("/x", true, true, false) {
        Err(PasswordStoreError::AccessError(m)) => assert_eq!(m, "gpg command not found. Please install GPG."),
        _ => panic!("expected AccessError"),
    }
    assert!(RipassoPasswordStore::check_layout("/x", true, true, true).is_ok());
}

#[test]
fn entries_and_refresh() {
    let mut s = store();
    assert_eq!(s.store_path(), "/store");
    assert_eq!(s.list_entries().unwrap(), vec!["web/site".to_string(), "api".to_string()]);
    assert!(s.contains_entry("api"));
    assert!(!s.contains_entry("ap"));
    assert!(s.refresh(Ok(vec!["new".to_string()])).is_ok());
    assert_eq!(s.list_entries().unwrap(), vec!["new".to_string()]);
    let failed = s.refresh(Err(PasswordStoreError::AccessError("denied".to_string())));
    assert!(matches!(failed, Err(PasswordStoreError::AccessError(_))));
    assert_eq!(s.list_entries().unwrap(), vec!["new".to_string()]);
    assert_eq!(s.store_path(), "/store");
}

#[test]
fn password_is_the_first_line() {
    assert_eq!(RipassoPasswordStore::password_from_secret("hunter2\nuser: bob\n"), "hunter2");
    assert_eq!(RipassoPasswordStore::password_from_secret("crlf\r\nx"), "crlf");
    assert_eq!(RipassoPasswordStore::password_from_secret(""), "");
    assert_eq!(RipassoPasswordStore::password_from_secret("\nsecond"), "");
}

#[test]
fn fields_are_found_by_name() {
    let secret = "pw\n  User Name :  alice  \nurl: https://x.com:8080\nuser: bob";
    assert_eq!(RipassoPasswordStore::field_from_secret(secret, "user name").unwrap(), "alice");
    assert_eq!(RipassoPasswordStore::field_from_secret(secret, "URL").unwrap(), "https://x.com:8080");
    assert_eq!(RipassoPasswordStore::field_from_secret(secret, "user").unwrap(), "bob");
    match RipassoPasswordStore::field_from_secret(secret, "email") {
        Err(PasswordStoreError::FieldNotFound(f)) => assert_eq!(f, "email"),
        _ => panic!("expected FieldNotFound"),
    }
}

#[test]
fn entry_names_drop_the_extension() {
    assert_eq!(RipassoPasswordStore::entry_name("web/site.gpg"), "web/site");
    assert_eq!(RipassoPasswordStore::entry_name("plain"), "plain");
    assert_eq!(RipassoPasswordStore::entry_name(".gpg"), "");
    assert_eq!(RipassoPasswordStore::entry_name("a.gpg.gpg"), "a.gpg");
}

#[test]
fn walk_choices() {
    assert!(matches!(scan_action(".git", Some(".git"), true, false, None), ScanAction::Skip));
    assert!(matches!(scan_action("web", Some("web"), true, false, None), ScanAction::Descend));
    assert!(matches!(scan_action("web/site.gpg", Some("site.gpg"), false, true, Some("gpg")), ScanAction::Entry(n) if n == "web/site"));
    assert!(matches!(scan_action(".gpg-id", Some(".gpg-id"), false, true, None), ScanAction::Skip));
    assert!(matches!(scan_action("notes.txt", Some("notes.txt"), false, true, Some("txt")), ScanAction::Skip));
}

fn node(relative: &str, name: &str, is_dir: bool, extension: Option<&str>, children: Vec<DirNode>) -> DirNode {
    DirNode {
        relative: relative.to_string(),
        file_name: Some(name.to_string()),
        is_dir,
        is_file: !is_dir,
        extension: extension.map(str::to_string),
        children,
    }
}

#[test]
fn the_walk_lists_gpg_files_in_order_and_skips_git() {
    let tree = vec![
        node(".gpg-id", ".gpg-id", false, None, vec![]),
        node("web", "web", true, None, vec![
            node("web/site.gpg", "site.gpg", false, Some("gpg"), vec![]),
            node("web/notes.txt", "notes.txt", false, Some("txt"), vec![]),
            node("web/deep", "deep", true, None, vec![node("web/deep/key.gpg", "key.gpg", false, Some("gpg"), vec![])]),
        ]),
        node(".git", ".git", true, None, vec![node(".git/x.gpg", "x.gpg", false, Some("gpg"), vec![])]),
        node("mail.gpg", "mail.gpg", false, Some("gpg"), vec![]),
    ];
    assert_eq!(walk_nodes(&tree), vec!["web/site".to_string(), "web/deep/key".to_string(), "mail".to_string()]);
    assert!(walk_nodes(&vec![]).is_empty());
}
