use vortex::platform::paths::{expand_home, parse_user_dirs};

/// A real French `user-dirs.dirs`: the case in which `~/Downloads` does not exist.
const FR: &str = r#"# This file is written by xdg-user-dirs-update
XDG_DESKTOP_DIR="$HOME/Bureau"
XDG_DOWNLOAD_DIR="$HOME/Téléchargements"
XDG_DOCUMENTS_DIR="$HOME/Documents"
"#;

/// The same with the longer heading that the tool writes.
const FR_LONG: &str = r#"# This file is written by xdg-user-dirs-update
# If you want to change or add directories, just edit the line you're
XDG_DESKTOP_DIR="$HOME/Bureau"
XDG_DOWNLOAD_DIR="$HOME/Téléchargements"
XDG_DOCUMENTS_DIR="$HOME/Documents"
"#;

#[test]
fn linux_parses_localised_download_dir() {
    let raw = parse_user_dirs(FR, "XDG_DOWNLOAD_DIR").expect("download dir");
    assert_eq!(raw, "$HOME/Téléchargements");
    assert_eq!(
        expand_home(&raw, "/home/cyril"),
        Some("/home/cyril/Téléchargements".to_string())
    );
}

#[test]
fn linux_ignores_comments_and_other_keys() {
    assert_eq!(parse_user_dirs(FR, "XDG_MUSIC_DIR"), None);
    let text = "#XDG_DOWNLOAD_DIR=\"$HOME/nope\"\nXDG_DOWNLOAD_DIR=\"$HOME/yes\"\n";
    assert_eq!(
        parse_user_dirs(text, "XDG_DOWNLOAD_DIR"),
        Some("$HOME/yes".to_string())
    );
}

#[test]
fn linux_last_assignment_wins_like_a_shell() {
    let text = "XDG_DOWNLOAD_DIR=\"$HOME/first\"\nXDG_DOWNLOAD_DIR=\"$HOME/second\"\n";
    assert_eq!(
        parse_user_dirs(text, "XDG_DOWNLOAD_DIR"),
        Some("$HOME/second".to_string())
    );
}

#[test]
fn linux_expands_home_forms_and_rejects_relative() {
    let home = "/home/cyril";
    for raw in ["$HOME/Dl", "${HOME}/Dl", "~/Dl"] {
        assert_eq!(expand_home(raw, home), Some("/home/cyril/Dl".to_string()));
    }
    assert_eq!(expand_home("$HOME/", home), Some(home.to_string()));
    assert_eq!(expand_home("/data/dl", home), Some("/data/dl".to_string()));
    assert_eq!(expand_home("Downloads", home), None);
    assert_eq!(expand_home("", home), None);
}

#[test]
fn linux_handles_unquoted_and_single_quoted() {
    assert_eq!(
        parse_user_dirs("XDG_DOWNLOAD_DIR=$HOME/Dl\n", "XDG_DOWNLOAD_DIR"),
        Some("$HOME/Dl".to_string())
    );
    assert_eq!(
        parse_user_dirs("XDG_DOWNLOAD_DIR='$HOME/Dl'\n", "XDG_DOWNLOAD_DIR"),
        Some("$HOME/Dl".to_string())
    );
}

#[test]
fn clipboard_sync_parses_localised_download_dir() {
    let raw = parse_user_dirs(FR_LONG, "XDG_DOWNLOAD_DIR").expect("download dir");
    assert_eq!(raw, "$HOME/Téléchargements");
    assert_eq!(
        expand_home(&raw, "/home/cyril"),
        Some("/home/cyril/Téléchargements".to_string())
    );
}

#[test]
fn clipboard_sync_ignores_comments_and_other_keys() {
    assert_eq!(parse_user_dirs(FR_LONG, "XDG_MUSIC_DIR"), None);
    // A commented-out assignment must not win.
    let text = "#XDG_DOWNLOAD_DIR=\"$HOME/nope\"\nXDG_DOWNLOAD_DIR=\"$HOME/yes\"\n";
    assert_eq!(
        parse_user_dirs(text, "XDG_DOWNLOAD_DIR"),
        Some("$HOME/yes".to_string())
    );
}

#[test]
fn clipboard_sync_last_assignment_wins_like_a_shell() {
    let text = "XDG_DOWNLOAD_DIR=\"$HOME/first\"\nXDG_DOWNLOAD_DIR=\"$HOME/second\"\n";
    assert_eq!(
        parse_user_dirs(text, "XDG_DOWNLOAD_DIR"),
        Some("$HOME/second".to_string())
    );
}

#[test]
fn clipboard_sync_expands_home_forms_and_rejects_relative() {
    let home = "/home/cyril";
    for raw in ["$HOME/Dl", "${HOME}/Dl", "~/Dl"] {
        assert_eq!(expand_home(raw, home), Some("/home/cyril/Dl".to_string()));
    }
    // Download dir set to the home directory itself.
    assert_eq!(expand_home("$HOME/", home), Some(home.to_string()));
    // Absolute paths pass through; relative ones are malformed.
    assert_eq!(expand_home("/data/dl", home), Some("/data/dl".to_string()));
    assert_eq!(expand_home("Downloads", home), None);
    assert_eq!(expand_home("", home), None);
}

/// Unquoted and single-quoted values are valid shell too.
#[test]
fn clipboard_sync_handles_unquoted_and_single_quoted() {
    assert_eq!(
        parse_user_dirs("XDG_DOWNLOAD_DIR=$HOME/Dl\n", "XDG_DOWNLOAD_DIR"),
        Some("$HOME/Dl".to_string())
    );
    assert_eq!(
        parse_user_dirs("XDG_DOWNLOAD_DIR='$HOME/Dl'\n", "XDG_DOWNLOAD_DIR"),
        Some("$HOME/Dl".to_string())
    );
}

#[test]
fn the_last_assignment_may_empty_a_key() {
    assert_eq!(parse_user_dirs("K=\"$HOME/a\"\nK=\"\"\n", "K"), None);
    assert_eq!(parse_user_dirs("K=\n", "K"), None);
    assert_eq!(
        parse_user_dirs("K=\"\"\nK=\"$HOME/a\"\n", "K").as_deref(),
        Some("$HOME/a")
    );
}

#[test]
fn somebody_elses_home_is_not_ours() {
    let home = "/home/cyril";
    assert_eq!(expand_home("~bob/x", home), None);
    assert_eq!(expand_home("$HOMES/x", home), None);
    assert_eq!(expand_home("${HOME}x", home), None);
    assert_eq!(expand_home("~", home).as_deref(), Some(home));
    assert_eq!(expand_home("$HOME", home).as_deref(), Some(home));
    assert_eq!(expand_home("${HOME}/x", home).as_deref(), Some("/home/cyril/x"));
}
