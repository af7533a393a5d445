use vpass::cli::cfg::Config;
use vpass::cli::opt::{OptAdd, OptEdit};
use vpass::cli::clipboard::powershell_quote;
use vpass::cli::paths::{config_file, vault_filename, ConfigFile};
use vpass::cli::validate::{item_name, validate, vault_name, ValidationError};
use vpass::{Error, Item, Password};

#[test]
fn names_are_validated() {
    assert!(vault_name("test_1.v").is_ok());
    assert!(vault_name("A.b_9").is_ok());
    assert!(matches!(vault_name(""), Err(Error::VaultNameInvalid(ValidationError::Empty))));
    assert!(matches!(
        vault_name("a b"),
        Err(Error::VaultNameInvalid(ValidationError::InvalidCharacters))
    ));
    assert!(matches!(
        vault_name("a/b"),
        Err(Error::VaultNameInvalid(ValidationError::InvalidCharacters))
    ));
    assert!(matches!(
        vault_name("ä"),
        Err(Error::VaultNameInvalid(ValidationError::InvalidCharacters))
    ));
    assert!(matches!(
        vault_name("a..b"),
        Err(Error::VaultNameInvalid(ValidationError::InvalidPattern))
    ));
    assert!(matches!(
        vault_name(".."),
        Err(Error::VaultNameInvalid(ValidationError::InvalidPattern))
    ));
    assert!(matches!(
        vault_name("a../b"),
        Err(Error::VaultNameInvalid(ValidationError::InvalidCharacters))
    ));
    assert!(vault_name(".").is_ok());
    assert!(item_name("item_name").is_ok());
    assert!(matches!(item_name(""), Err(Error::VaultNameInvalid(ValidationError::Empty))));
    assert_eq!(validate("a..b"), Err(ValidationError::InvalidPattern));
    assert_eq!(validate("ok"), Ok(()));
}

#[test]
fn vault_files_are_named_after_the_vault() {
    assert_eq!(vault_filename("testvault"), "testvault.vpass_vault");
}

#[test]
fn fresh_settings_have_no_default_vault() {
    assert!(Config::default().default_vault.is_none());
}

#[test]
fn add_builds_the_item() {
    let opt = OptAdd {
        name: "item_name".to_owned(),
        tags: vec!["tag1".to_owned()],
        notes: vec!["note".to_owned()],
        password: Some("item_password".to_owned()),
        skip_password: false,
    };
    let item = opt.item(Some("asked".to_owned()));
    assert_eq!(item.name, "item_name");
    assert_eq!(item.password.unwrap().plaintext(), "item_password");
    assert_eq!(item.tags, vec!["tag1".to_owned()]);
    assert_eq!(item.notes, vec!["note".to_owned()]);

    let opt = OptAdd { password: None, ..opt };
    assert_eq!(opt.item(Some("asked".to_owned())).password.unwrap().plaintext(), "asked");
    assert!(opt.item(None).password.is_none());
}

fn edit() -> OptEdit {
    OptEdit {
        name: "item_name".to_owned(),
        tags: vec![],
        remove_tags: vec![],
        notes: vec![],
        remove_notes: vec![],
        password: None,
        change_password: false,
    }
}

#[test]
fn edit_changes_the_password() {
    let mut item = Item::new("item_name");
    item.password = Some(Password::new("item_password"));
    let opt = OptEdit { password: Some("new_password".to_owned()), ..edit() };
    opt.apply(&mut item, None);
    assert_eq!(item.password.as_ref().unwrap().plaintext(), "new_password");
    edit().apply(&mut item, Some("asked".to_owned()));
    assert_eq!(item.password.as_ref().unwrap().plaintext(), "asked");
    edit().apply(&mut item, None);
    assert_eq!(item.password.as_ref().unwrap().plaintext(), "asked");
    assert_eq!(item.name, "item_name");
}

#[test]
fn edit_adds_and_removes_tags() {
    let mut item = Item::new("item_name");
    OptEdit { tags: vec!["tag1".to_owned()], ..edit() }.apply(&mut item, None);
    OptEdit { tags: vec!["tag2".to_owned()], ..edit() }.apply(&mut item, None);
    assert_eq!(item.tags, vec!["tag1".to_owned(), "tag2".to_owned()]);
    OptEdit { tags: vec!["tag3".to_owned()], remove_tags: vec!["tag1".to_owned()], ..edit() }
        .apply(&mut item, None);
    assert_eq!(item.tags, vec!["tag2".to_owned(), "tag3".to_owned()]);
}

#[test]
fn edit_adds_and_removes_notes() {
    let mut item = Item::new("item_name");
    item.notes = vec!["zero".to_owned(), "one".to_owned(), "two".to_owned()];
    OptEdit { notes: vec!["three".to_owned()], remove_notes: vec![2, 0], ..edit() }
        .apply(&mut item, None);
    assert_eq!(item.notes, vec!["one".to_owned(), "three".to_owned()]);
}

#[test]
fn quoting_doubles_single_quotes() {
    assert_eq!(powershell_quote(""), "''");
    assert_eq!(powershell_quote("secret"), "'secret'");
    assert_eq!(powershell_quote("it's"), "'it''s'");
    assert_eq!(powershell_quote("'"), "''''");
    assert_eq!(powershell_quote("a'b'c"), "'a''b''c'");
    assert_eq!(powershell_quote("p\u{e4}ss \"w\""), "'p\u{e4}ss \"w\"'");
    for s in ["", "x", "'", "''", "a'b", "\u{1f511}'"] {
        assert_eq!(powershell_quote(s), format!("'{}'", s.replace("'", "''")));
    }
}

#[test]
fn settings_are_kept_where_the_command_line_says() {
    assert!(matches!(
        config_file(false, Some("/tmp/x.json".to_owned())),
        ConfigFile::Given(p) if p == "/tmp/x.json"
    ));
    assert!(matches!(config_file(false, None), ConfigFile::InDataDir(n) if n == "config.json"));
}
