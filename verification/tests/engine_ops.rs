use rotfiles::config::Config;
use rotfiles::database::{Database, Entry};
use rotfiles::engine::App;
use rotfiles::errors::SyncError;

fn make_app() -> App {
    let cfg = Config::new(
        "/home/user",
        "/home/user/dotfiles",
        "/home/user/.local/share/rotfiles/backup",
    );
    App::from_config(cfg, Vec::<Entry>::new())
}

fn global_config() -> &'static str {
    r#"{"testhost": true}"#
}

#[test]
fn test_template_empty_data() {
    let mut app = make_app();
    let result_path = "/home/user/.empty_data_test".to_string();
    let template_path = app
        .dotfile_to_filename(&result_path)
        .expect("Couldnt translete dotfile to filename");

    let orig_content = "content more original than half of youtube";
    let plan = app
        .process_file(
            &template_path,
            &result_path,
            None,
            orig_content,
            global_config(),
            Some("{}"),
            1,
        )
        .expect("Error processing file");
    assert_eq!(orig_content, plan.output);
}

#[test]
fn test_template_full() {
    let mut app = make_app();
    let result_path = "/home/user/.testtemplate".to_string();
    let target_content = "content more original than half of youtube";
    let orig_content = "content more original than half of {{site}}";
    let hostname = "testhost".to_string();

    // the live file exists with the target content; bring it under
    // management, its own modification time as the baseline
    let plan = app
        .add_file(&result_path, target_content, 100, true, &hostname)
        .expect("Error adding file");
    let template_path = plan.template_path.clone();
    assert_eq!(template_path, "/home/user/dotfiles/testtemplate");
    let (config_path, config_text) = plan.config.expect("config document requested");
    assert_eq!(config_path, "/home/user/dotfiles/testtemplate.json");
    assert_eq!(config_text, r#"{"testhost":true}"#);

    // an immediately following render must not raise a false conflict
    let plan = app
        .process_file(
            &template_path,
            &result_path,
            Some(100),
            orig_content,
            global_config(),
            Some(r#"{"site": "youtube"}"#),
            200,
        )
        .expect("Error processing file");
    assert_eq!(target_content, plan.output);
    assert!(plan.backup_needed);
}

#[test]
fn test_template_no_local_json() {
    let mut app = make_app();
    let result_path = "/home/user/.testdotfile".to_string();
    let target_content = "content more original than half of ";
    let orig_content = "content more original than half of {{site}}";
    let hostname = "testhost".to_string();

    let plan = app
        .add_file(&result_path, target_content, 100, false, &hostname)
        .expect("Error adding file");
    assert!(plan.config.is_none());
    let template_path = plan.template_path.clone();

    let plan = app
        .process_file(
            &template_path,
            &result_path,
            Some(100),
            orig_content,
            global_config(),
            None,
            200,
        )
        .expect("Error processing file");
    assert_eq!(target_content, plan.output);
}

#[test]
fn test_ensure_template_newer_than_file() {
    let mut app = make_app();
    let dot_file_path = "/home/user/.rotfiletestdotfile".to_string();
    let content = "Simple test dotfile";
    let hostname = "testhost".to_string();

    let add_plan = app
        .add_file(&dot_file_path, content, 1000, false, &hostname)
        .expect("Error adding file");
    app.ensure_template_newer_than_file(&dot_file_path, 1000)
        .expect("Template falsely marked as older");

    app.process_file(
        &add_plan.template_path,
        &dot_file_path,
        Some(1000),
        content,
        global_config(),
        None,
        2000,
    )
    .expect("Error processing file");
    app.db
        .touch(&dot_file_path, 3000)
        .expect("Error updating file modtime");
    app.ensure_template_newer_than_file(&dot_file_path, 3000)
        .expect("Template falsely marked as older after processing");
}

#[test]
fn test_add_file_no_config() {
    let mut app = make_app();
    let dotfile_path = "/home/user/.zshrc".to_string();
    let contents = r#"This is a test file"#;
    let hostname = "testhost".to_string();

    let timestamp: u64 = 1234;
    let plan = app
        .add_file(&dotfile_path, contents, timestamp, false, &hostname)
        .expect("Error adding file");

    assert_eq!(
        app.db
            .last_updated(&dotfile_path)
            .expect("Requested path not in database"),
        timestamp
    );
    assert_eq!(contents, plan.template_text);
}

#[test]
fn test_conflict_detection() {
    let mut app = make_app();
    let dest = "/home/user/.zshrc".to_string();
    let hostname = "testhost".to_string();
    let plan = app
        .add_file(&dest, "alias x=1", 100, false, &hostname)
        .expect("Error adding file");

    // the live file was touched after the recorded baseline: the render
    // must abort and the index must keep its baseline
    let r = app.process_file(
        &plan.template_path,
        &dest,
        Some(150),
        "alias x=1",
        global_config(),
        None,
        999,
    );
    assert!(matches!(r, Err(SyncError::FileNewerThanTemplate { .. })));
    assert_eq!(app.db.last_updated(&dest), Some(100));
}

#[test]
fn test_unmanaged_destination_conflict() {
    let mut app = make_app();
    // the destination exists on disk but the index has no baseline for it
    let r = app.process_file(
        "/home/user/dotfiles/zshrc",
        "/home/user/.zshrc",
        Some(1),
        "whatever",
        global_config(),
        None,
        2,
    );
    assert!(matches!(r, Err(SyncError::FileNewerThanTemplate { .. })));
}

#[test]
fn test_render_error() {
    let mut app = make_app();
    let r = app.process_file(
        "/home/user/dotfiles/broken",
        "/home/user/.broken",
        None,
        "{{#if}}unclosed block",
        global_config(),
        None,
        1,
    );
    assert!(matches!(r, Err(SyncError::RenderError { .. })));
}

#[test]
fn test_config_errors_surface() {
    let mut app = make_app();
    let r = app.process_file(
        "/home/user/dotfiles/x",
        "/home/user/.x",
        None,
        "text",
        "not json",
        None,
        1,
    );
    assert!(matches!(r, Err(SyncError::JsonConfig { .. })));
    let r = app.process_file(
        "/home/user/dotfiles/y",
        "/home/user/.y",
        None,
        "text",
        global_config(),
        Some("[1,2]"),
        1,
    );
    assert!(matches!(r, Err(SyncError::NotAnObject)));
}

#[test]
fn test_end_to_end() {
    let mut app = make_app();
    let dest = "/home/user/.greeting".to_string();
    let hostname = "testhost".to_string();

    app.add_file(&dest, "Hello old", 100, false, &hostname)
        .expect("Error adding file");
    let template = "Hello {{name}}";
    let local = r#"{"name":"World"}"#;

    // first render
    let plan = app
        .process_file(
            "/home/user/dotfiles/greeting",
            &dest,
            Some(100),
            template,
            global_config(),
            Some(local),
            200,
        )
        .expect("Error processing file");
    assert_eq!(plan.output, "Hello World");
    // the embedding program writes the output (say at time 250), then
    // records the moment of the write
    app.db.touch(&dest, 250).expect("Error updating file modtime");

    // re-running on an untouched destination succeeds and renders the same
    let plan = app
        .process_file(
            "/home/user/dotfiles/greeting",
            &dest,
            Some(250),
            template,
            global_config(),
            Some(local),
            300,
        )
        .expect("Error processing file");
    assert_eq!(plan.output, "Hello World");
    app.db.touch(&dest, 350).expect("Error updating file modtime");

    // an out-of-band edit after the last sync makes the next render fail
    let r = app.process_file(
        "/home/user/dotfiles/greeting",
        &dest,
        Some(400),
        template,
        global_config(),
        Some(local),
        500,
    );
    assert!(matches!(r, Err(SyncError::FileNewerThanTemplate { .. })));
    // the baseline is untouched, so the user's edit stays protected
    assert_eq!(app.db.last_updated(&dest), Some(350));
}

#[test]
fn test_touch_baseline() {
    let mut app = make_app();
    let dest = "/home/user/.zshrc".to_string();
    let hostname = "testhost".to_string();
    app.add_file(&dest, "x", 100, false, &hostname)
        .expect("Error adding file");
    // after a successful render written at time 600, the engine is
    // touched with a clock reading taken at or after the write
    app.db.touch(&dest, 601).expect("Error updating file modtime");
    let recorded = app.db.last_updated(&dest).expect("path in database");
    assert!(recorded >= 600);
}

#[test]
fn test_database_ops() {
    let mut db = Database::new();
    let entry = Entry {
        template_path: "/t/a".to_string(),
        config_path: None,
        destination: "/h/.a".to_string(),
        last_updated: 1,
    };
    assert!(!db.in_database(&"/h/.a".to_string()));
    assert!(db.add_entry(entry).is_none());
    assert!(db.in_database(&"/h/.a".to_string()));

    let replacement = Entry {
        template_path: "/t/a2".to_string(),
        config_path: None,
        destination: "/h/.a".to_string(),
        last_updated: 2,
    };
    let prev = db.add_entry(replacement).expect("previous entry returned");
    assert_eq!(prev.template_path, "/t/a");
    assert_eq!(
        db.last_updated_entry(Entry {
            template_path: "/t/ignored".to_string(),
            config_path: None,
            destination: "/h/.a".to_string(),
            last_updated: 0,
        }),
        Some(2)
    );

    let r = db.touch(&"/h/.missing".to_string(), 9);
    assert!(matches!(r, Err(SyncError::UnknownEntry { .. })));

    let found = db.lookup(&"/h/.a".to_string()).expect("entry recorded");
    assert_eq!(found.template_path, "/t/a2");
    assert!(db.lookup(&"/h/.missing".to_string()).is_none());

    db.rm_key(&"/h/.a".to_string());
    assert!(!db.in_database(&"/h/.a".to_string()));
    assert_eq!(db.last_updated(&"/h/.a".to_string()), None);
}

#[test]
fn test_prompt_answer() {
    assert_eq!(rotfiles::engine::prompt_answer("\n"), Some(true));
    assert_eq!(rotfiles::engine::prompt_answer("y\n"), Some(true));
    assert_eq!(rotfiles::engine::prompt_answer("N\n"), Some(false));
    assert_eq!(rotfiles::engine::prompt_answer("maybe\n"), None);
}
