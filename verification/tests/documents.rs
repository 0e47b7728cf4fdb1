use rotfiles::config::Config;
use rotfiles::database::{Database, Entry};
use rotfiles::engine::App;
use rotfiles::errors::SyncError;
use rotfiles::jsondoc::JsonDoc;
use rotfiles::sanitize::sanitize_file;

#[test]
fn test_sanitize() {
    let s = "String to be left alone";
    let s2 = "String with daaangerous {{s and }}s";
    let s2_target = r#"String with daaangerous \{{s and \}}s"#;

    let result1 = sanitize_file(s);
    assert_eq!(result1, s);

    let result2 = sanitize_file(s2);
    assert_eq!(result2, s2_target);
}

#[test]
fn test_merge_shallow() {
    let global = JsonDoc::parse(r#"{"a":1,"b":2}"#, "global").expect("global should parse");
    let local = JsonDoc::parse(r#"{"b":3,"c":4}"#, "local").expect("local should parse");
    let merged = global.merge(&local);
    let members = merged.members();
    let expected = vec![
        ("a".to_string(), "1".to_string()),
        ("b".to_string(), "3".to_string()),
        ("c".to_string(), "4".to_string()),
    ];
    assert_eq!(*members, expected);
}

#[test]
fn test_doc_serialization() {
    let doc = JsonDoc::parse(r#"{"name": "World", "n": 7}"#, "doc").expect("should parse");
    assert_eq!(doc.to_json_text(), r#"{"n":7,"name":"World"}"#);
}

#[test]
fn test_parse_invalid_json() {
    let r = JsonDoc::parse("not json at all", "global config document");
    assert!(matches!(r, Err(SyncError::JsonConfig { .. })));
}

#[test]
fn test_parse_not_an_object() {
    let r = JsonDoc::parse("[1, 2, 3]", "local config document");
    assert!(matches!(r, Err(SyncError::NotAnObject)));
}

#[test]
fn test_backup() {
    let cfg = Config::new("/home/user", "/home/user/dotfiles", "/backups");
    let app = App::from_config(cfg, Vec::<Entry>::new());
    let location = app
        .backup_file("/home/user/.config/app/config.yaml", 0)
        .expect("Failed to back file up");
    assert_eq!(location, "/backups/config1970-01-01T00:00:00.yaml");
}

#[test]
fn test_backup_without_extension() {
    let cfg = Config::new("/home/user", "/home/user/dotfiles", "/backups");
    let app = App::from_config(cfg, Vec::<Entry>::new());
    let location = app
        .backup_file("/home/user/.zshrc", 1431648000)
        .expect("Failed to back file up");
    assert_eq!(location, "/backups/.zshrc2015-05-15T00:00:00");
}

#[test]
fn test_backup_no_file_name() {
    let cfg = Config::new("/home/user", "/home/user/dotfiles", "/backups");
    let app = App::from_config(cfg, Vec::<Entry>::new());
    let r = app.backup_file("/", 0);
    assert!(matches!(r, Err(SyncError::NoFileName)));
}

#[test]
fn test_error_messages() {
    let e = SyncError::NotAnObject;
    assert_eq!(e.message(), "config documents are not JSON objects");
    let e = SyncError::FileNewerThanTemplate {
        path: "/home/user/.zshrc".to_string(),
    };
    assert_eq!(
        e.message(),
        "file is newer than its template: /home/user/.zshrc"
    );
}

#[test]
fn test_log_contents() {
    let mut db = Database::new();
    db.add_entry(Entry {
        template_path: "/home/user/dotfiles/zshrc".to_string(),
        config_path: None,
        destination: "/home/user/.zshrc".to_string(),
        last_updated: 5,
    });
    assert_eq!(db.log_contents(), "/home/user/.zshrc -> 5\n");
}

#[test]
fn test_index_serialization() {
    let mut db = Database::new();
    db.add_entry(Entry {
        template_path: "/t/x".to_string(),
        config_path: None,
        destination: "/h/.x".to_string(),
        last_updated: 7,
    });
    db.add_entry(Entry {
        template_path: "/t/y".to_string(),
        config_path: Some("/t/y.json".to_string()),
        destination: "/h/.y".to_string(),
        last_updated: 1234567890,
    });
    let expected = r#"{"/h/.x":{"template_path":"/t/x","config_path":null,"destination":"/h/.x","last_updated":7},"/h/.y":{"template_path":"/t/y","config_path":"/t/y.json","destination":"/h/.y","last_updated":1234567890}}"#;
    assert_eq!(db.to_json(), expected);
}
