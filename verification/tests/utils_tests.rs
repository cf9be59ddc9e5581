use dotr::utils::{
    log_line, normalize_home_path, resolve_path, LogLevel, BACKUP_EXT, COLOR_ERROR, COLOR_FATAL,
    COLOR_INFO, COLOR_WARNING, RESET_COLOR,
};

const HOME: &str = "/home/user";

#[test]
fn test_resolve_path_absolute() {
    let cwd = "/some/cwd";
    let path = "/absolute/path";
    let resolved = resolve_path(path, cwd, HOME);
    assert_eq!(resolved, "/absolute/path");
}

#[test]
fn test_resolve_path_with_tilde() {
    let cwd = "/some/cwd";

    // Test ~/subdir
    let path = "~/Documents";
    let resolved = resolve_path(path, cwd, HOME);
    assert_eq!(resolved, format!("{}/Documents", HOME));

    // Test just ~
    let path = "~";
    let resolved = resolve_path(path, cwd, HOME);
    assert_eq!(resolved, HOME);
}

#[test]
fn test_resolve_path_relative() {
    let cwd = "/some/cwd";
    let path = "relative/path";
    let resolved = resolve_path(path, cwd, HOME);

    // Should be absolute path based on cwd
    assert!(resolved.starts_with('/'));
    assert!(resolved.ends_with("relative/path"));
    assert_eq!(resolved, "/some/cwd/relative/path");
}

#[test]
fn test_resolve_path_dot_relative() {
    let cwd = "/some/cwd";
    let path = "./file.txt";
    let resolved = resolve_path(path, cwd, HOME);

    assert!(resolved.starts_with('/'));
    assert!(resolved.ends_with("file.txt"));
}

#[test]
fn test_resolve_path_parent_relative() {
    let cwd = "/some/cwd/subdir";
    let path = "../file.txt";
    let resolved = resolve_path(path, cwd, HOME);

    assert!(resolved.starts_with('/'));
}

#[test]
fn test_normalize_home_path_already_normalized() {
    let path = "~/.config/nvim";
    let normalized = normalize_home_path(path, Some(HOME));
    assert_eq!(normalized, "~/.config/nvim");
}

#[test]
fn test_normalize_home_path_in_home_directory() {
    // Test a path in home directory
    let path = format!("{}/.config/nvim", HOME);
    let normalized = normalize_home_path(&path, Some(HOME));
    assert_eq!(normalized, "~/.config/nvim");
}

#[test]
fn test_normalize_home_path_home_root() {
    // Test the home directory itself
    let normalized = normalize_home_path(HOME, Some(HOME));
    assert_eq!(normalized, "~");
}

#[test]
fn test_normalize_home_path_outside_home() {
    let path = "/etc/config";
    let normalized = normalize_home_path(path, Some(HOME));
    assert_eq!(normalized, "/etc/config");

    let path = "/tmp/test";
    let normalized = normalize_home_path(path, Some(HOME));
    assert_eq!(normalized, "/tmp/test");
}

#[test]
fn test_normalize_home_path_with_trailing_slash() {
    let path = format!("{}/.config/", HOME);
    let normalized = normalize_home_path(&path, Some(HOME));
    assert_eq!(normalized, "~/.config/");
}

#[test]
fn test_normalize_home_path_deep_nested() {
    let path = format!("{}/a/b/c/d/e/f", HOME);
    let normalized = normalize_home_path(&path, Some(HOME));
    assert_eq!(normalized, "~/a/b/c/d/e/f");
}

#[test]
fn test_backup_ext_constant() {
    assert_eq!(BACKUP_EXT, "dotrbak");
}

#[test]
fn test_resolve_path_empty_relative() {
    let cwd = "/some/cwd";
    let path = "";
    let resolved = resolve_path(path, cwd, HOME);

    assert!(resolved.starts_with('/'));
    assert_eq!(resolved, "/some/cwd");
}

#[test]
fn test_normalize_home_path_similar_prefix() {
    // A path that has home as a prefix of its text but is not in home
    let fake_path = format!("{}_fake/config", HOME);
    let normalized = normalize_home_path(&fake_path, Some(HOME));
    // Should not be normalized since it's not actually in home
    assert_eq!(normalized, fake_path);
}

#[test]
fn test_resolve_and_normalize_round_trip() {
    let cwd = "/some/cwd";

    // Start with tilde path
    let original = "~/.bashrc";

    // Resolve it
    let resolved = resolve_path(original, cwd, HOME);
    assert_eq!(resolved, format!("{}/.bashrc", HOME));

    // Normalize it back
    let normalized = normalize_home_path(&resolved, Some(HOME));
    assert_eq!(normalized, original);
}

#[test]
fn test_normalize_home_path_with_spaces() {
    let path = format!("{}/My Documents/file.txt", HOME);
    let normalized = normalize_home_path(&path, Some(HOME));
    assert_eq!(normalized, "~/My Documents/file.txt");
}

#[test]
fn test_normalize_home_path_with_dots() {
    let path = format!("{}/.config/.hidden/..dotfile", HOME);
    let normalized = normalize_home_path(&path, Some(HOME));
    assert_eq!(normalized, "~/.config/.hidden/..dotfile");
}

#[test]
fn normalize_without_home_leaves_the_path() {
    assert_eq!(normalize_home_path("/home/user/x", None), "/home/user/x");
}

#[test]
fn resolve_tilde_drops_the_first_segment_only() {
    assert_eq!(resolve_path("~/a/b", "/cwd", "/h"), "/h/a/b");
    assert_eq!(resolve_path("~other/a", "/cwd", "/h"), "/h/a");
    assert_eq!(resolve_path("~/", "/cwd", "/h"), "/h/");
    assert_eq!(resolve_path("~/", "/cwd", "/h/"), "/h/");
    assert_eq!(resolve_path("~", "/cwd", "/h"), "/h");
}

#[test]
fn resolve_relative_joins_with_one_separator() {
    assert_eq!(resolve_path("x", "/cwd/", "/h"), "/cwd/x");
    assert_eq!(resolve_path("x", "/cwd", "/h"), "/cwd/x");
    assert_eq!(resolve_path("x", "", "/h"), "x");
}

#[test]
fn log_level_names() {
    assert_eq!(LogLevel::WARNING.as_str(), "WARNING");
    assert_eq!(LogLevel::ERROR.as_str(), "ERROR");
    assert_eq!(LogLevel::INFO.as_str(), "INFO");
    assert_eq!(LogLevel::FATAL.as_str(), "FATAL");
}

#[test]
fn log_level_colorful_names() {
    assert_eq!(LogLevel::WARNING.to_colorful_str(), "\x1b[33m[WARNING]\x1b[0m");
    assert_eq!(LogLevel::ERROR.to_colorful_str(), "\x1b[31m[ERROR]\x1b[0m");
    assert_eq!(LogLevel::INFO.to_colorful_str(), "\x1b[34m[INFO]\x1b[0m");
    assert_eq!(LogLevel::FATAL.to_colorful_str(), "\x1b[35m[FATAL]\x1b[0m");
    assert_eq!(
        LogLevel::INFO.to_colorful_str(),
        format!("{}[INFO]{}", COLOR_INFO, RESET_COLOR)
    );
    assert_eq!(COLOR_WARNING, "\x1b[33m");
    assert_eq!(COLOR_ERROR, "\x1b[31m");
    assert_eq!(COLOR_FATAL, "\x1b[35m");
}

#[test]
fn log_line_joins_level_and_message() {
    assert_eq!(
        log_line("disk full", &LogLevel::ERROR),
        "\x1b[31m[ERROR]\x1b[0m disk full"
    );
    assert!(LogLevel::ERROR.is_error());
    assert!(LogLevel::FATAL.is_error());
    assert!(!LogLevel::INFO.is_error());
    assert!(!LogLevel::WARNING.is_error());
}

#[test]
fn home_alone_round_trips_with_its_separator() {
    let resolved = resolve_path("~/", "/some/cwd", HOME);
    assert_eq!(resolved, format!("{}/", HOME));
    assert_eq!(normalize_home_path(&resolved, Some(HOME)), "~/");

    let resolved = resolve_path("~/.config/nvim", "/some/cwd", HOME);
    assert_eq!(normalize_home_path(&resolved, Some(HOME)), "~/.config/nvim");
}

#[test]
fn resolved_paths_are_absolute() {
    for path in ["/etc/x", "~", "~/", "~/x", "x", "", "./x", "../x"] {
        assert!(resolve_path(path, "/cwd", HOME).starts_with('/'), "{}", path);
    }
}
