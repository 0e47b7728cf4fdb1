use rotfiles::config::Config;
use rotfiles::database::Entry;
use rotfiles::engine::App;
use rotfiles::errors::SyncError;

fn make_app() -> App {
    let home = "/home/user";
    let cfg = Config::new(
        home,
        "/home/user/dotfiles",
        "/home/user/.local/share/rotfiles/backup",
    );
    App::from_config(cfg, Vec::<Entry>::new())
}

#[test]
fn test_filename_to_dotfile() {
    let app = make_app();
    let home = "/home/user";
    let cases = vec![
        (format!("{}/dotfiles/zshrc", home), format!("{}/.zshrc", home)),
        (
            format!("{}/dotfiles/config/nvim/init.vim", home),
            format!("{}/.config/nvim/init.vim", home),
        ),
    ];
    for (case, res) in cases {
        assert_eq!(
            res,
            app.filename_to_dotfile(&case)
                .expect("Couldn't translate filename to dotfile")
        );
    }
}

#[test]
fn test_dotfile_to_filename() {
    let app = make_app();
    let home = "/home/user";
    let cases = vec![
        (format!("{}/.zshrc", home), format!("{}/dotfiles/zshrc", home)),
        (
            format!("{}/.config/nvim/init.vim", home),
            format!("{}/dotfiles/config/nvim/init.vim", home),
        ),
    ];
    for (case, res) in cases {
        assert_eq!(
            res,
            app.dotfile_to_filename(&case)
                .expect("Couldnt translete dotfile to filename")
        );
    }
}

#[test]
fn test_dotfile_identity() {
    let app = make_app();
    let home = "/home/user";
    for case in [
        format!("{}/dotfiles/zshrc", home),
        format!("{}/dotfiles/config/nvim/init.vim", home),
    ]
    .iter()
    {
        assert_eq!(
            *case,
            app.dotfile_to_filename(
                &app.filename_to_dotfile(case)
                    .expect("Unable to translate filename to dotfile")
            )
            .expect("Unable to translate dotfile to filename")
        );
    }
}

#[test]
fn test_not_a_dotfile() {
    let app = make_app();
    // outside the home root
    let r = app.dotfile_to_filename("/elsewhere/.zshrc");
    assert!(matches!(r, Err(SyncError::NotADotfile { .. })));
    // under the home root, but not hidden
    let r = app.dotfile_to_filename("/home/user/zshrc");
    assert!(matches!(r, Err(SyncError::NotADotfile { .. })));
    // outside the template root
    let r = app.filename_to_dotfile("/elsewhere/zshrc");
    assert!(matches!(r, Err(SyncError::NotADotfile { .. })));
}

#[test]
fn test_canonicalize_resolves_parents() {
    let app = make_app();
    let r = app
        .filename_to_dotfile("/home/user/dotfiles/config/../zshrc")
        .expect("Couldn't translate filename to dotfile");
    assert_eq!(r, "/home/user/.zshrc");
}

#[test]
fn test_files_to_process() {
    let app = make_app();
    let all = vec![
        "/home/user/dotfiles/zshrc".to_string(),
        "/home/user/dotfiles/zshrc.json".to_string(),
        "/home/user/dotfiles/.hidden".to_string(),
        "/home/user/dotfiles/config/nvim/init.vim".to_string(),
        "/home/user/dotfiles/config/.git/config".to_string(),
        "/home/user/elsewhere/zshrc".to_string(),
    ];
    let picked = app.files_to_process(&all);
    assert_eq!(
        picked,
        vec![
            "/home/user/dotfiles/zshrc".to_string(),
            "/home/user/dotfiles/config/nvim/init.vim".to_string(),
        ]
    );
}
