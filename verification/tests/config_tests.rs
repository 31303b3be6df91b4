use transit::config::{
    config_path_from, config_text, default_local_dir_from, downloads_dir, expand_home, load,
    local_dir_candidate, parse_config, sanitize_host, sanitize_local_dir, sanitize_remote_path,
    stored_config, AppConfig, ConfigError,
};

#[test]
fn sanitizes_ssh_hosts() {
    assert_eq!(sanitize_host(" user@example ").unwrap(), "user@example");
    assert_eq!(
        sanitize_host("ssh://user@example/some/path").unwrap(),
        "user@example"
    );
}

#[test]
fn rejects_unsafe_hosts() {
    assert!(sanitize_host("-oProxyCommand=bad").is_err());
    assert!(sanitize_host("root@host;rm").is_err());
    assert!(sanitize_host("root@host path").is_err());
}

#[test]
fn trims_remote_paths() {
    assert_eq!(
        sanitize_remote_path(" /remote/media ").unwrap(),
        "/remote/media"
    );
}

fn message(r: Result<String, ConfigError>) -> String {
    match r {
        Ok(v) => panic!("expected an error, got {v}"),
        Err(e) => e.message(),
    }
}

#[test]
fn host_errors_name_each_rule() {
    assert_eq!(message(sanitize_host("   ")), "remote host cannot be empty");
    assert_eq!(message(sanitize_host("ssh:///x")), "remote host cannot be empty");
    assert_eq!(message(sanitize_host("-x")), "remote host cannot start with '-'");
    assert_eq!(message(sanitize_host("a\u{7}b")), "remote host cannot contain whitespace");
    assert_eq!(message(sanitize_host("a\u{a0}b")), "remote host cannot contain whitespace");
    assert_eq!(
        message(sanitize_host("a$b")),
        "remote host contains unsupported characters"
    );
    assert_eq!(
        message(sanitize_host("a/b")),
        "remote host contains unsupported characters"
    );
    assert_eq!(sanitize_host("ssh://nas").unwrap(), "nas");
    assert_eq!(sanitize_host("\u{3000}nas\u{2003}").unwrap(), "nas");
}

#[test]
fn sanitized_host_is_its_own_sanitized_form() {
    for v in ["ssh://me@nas/x/y", " me@nas ", "alias", "ssh://a"] {
        let h = sanitize_host(v).unwrap();
        assert_eq!(sanitize_host(&h).unwrap(), h);
    }
}

#[test]
fn remote_path_errors() {
    assert_eq!(message(sanitize_remote_path(" \t ")), "remote path cannot be empty");
    assert_eq!(
        message(sanitize_remote_path("/a\u{1b}b")),
        "remote path cannot contain control characters"
    );
    assert_eq!(sanitize_remote_path("~").unwrap(), "~");
}

#[test]
fn expands_home_like_path_join() {
    assert_eq!(expand_home("~", Some("/home/me")), "/home/me");
    assert_eq!(expand_home("~/Downloads", Some("/home/me")), "/home/me/Downloads");
    assert_eq!(expand_home("~/Downloads", Some("/home/me/")), "/home/me/Downloads");
    assert_eq!(expand_home("~//abs", Some("/home/me")), "/abs");
    assert_eq!(expand_home("~/x", None), "~/x");
    assert_eq!(expand_home("/tmp", Some("/home/me")), "/tmp");
    assert_eq!(expand_home("~user", Some("/home/me")), "~user");
    for (home, rest) in [("/home/me", "a/b"), ("/home/me/", "c"), ("", "d"), ("/h", "/abs")] {
        let expected = std::path::PathBuf::from(home).join(rest);
        assert_eq!(
            expand_home(&format!("~/{rest}"), Some(home)),
            expected.to_string_lossy()
        );
    }
}

#[test]
fn local_dirs_must_exist() {
    assert_eq!(local_dir_candidate("  ~/Media ", Some("/h")), "/h/Media");
    assert_eq!(sanitize_local_dir(" ~/Media", Some("/h"), true).unwrap(), "/h/Media");
    assert_eq!(
        message(sanitize_local_dir("/nope", None, false)),
        "source directory does not exist: /nope"
    );
}

fn defaults() -> AppConfig {
    AppConfig::defaults("/start".to_string())
}

#[test]
fn defaults_have_no_host_and_the_remote_home() {
    let d = defaults();
    assert_eq!(d.remote_host, "");
    assert_eq!(d.remote_path, "~");
    assert_eq!(d.local_dir, "/start");
}

#[test]
fn parses_settings_files() {
    let content = "remote_host= me@nas \r\n# comment\nremote_path = /media \nlocal_dir=~/Videos\nother=1\n";
    let parsed = parse_config(content, defaults(), Some("/home/me")).unwrap();
    assert_eq!(parsed.config.remote_host, "me@nas");
    assert_eq!(parsed.config.remote_path, "/media");
    assert_eq!(parsed.config.local_dir, "/home/me/Videos");
    assert_eq!(parsed.local_dirs, vec!["/home/me/Videos".to_string()]);
    let stored = stored_config(Ok(parsed.clone()), &vec![true]).unwrap();
    assert_eq!(stored.remote_host, "me@nas");
    assert!(stored_config(Ok(parsed), &vec![false]).is_none());
}

#[test]
fn refuses_settings_files_with_bad_values() {
    assert!(parse_config("remote_host=bad host\n", defaults(), None).is_err());
    assert!(parse_config("remote_path=\n", defaults(), None).is_err());
    let empty = parse_config("", defaults(), None).unwrap();
    assert_eq!(empty.config.remote_path, "~");
    assert!(empty.local_dirs.is_empty());
}

#[test]
fn loads_stored_settings_or_defaults() {
    let stored = AppConfig {
        remote_host: "nas".to_string(),
        remote_path: "/m".to_string(),
        local_dir: "/l".to_string(),
    };
    let l = load(false, Some(stored.clone()), defaults());
    assert_eq!(l.config.remote_host, "nas");
    assert!(!l.needs_init);
    let l = load(true, Some(stored), defaults());
    assert!(l.needs_init);
    let l = load(false, None, defaults());
    assert_eq!(l.config.local_dir, "/start");
    assert!(l.needs_init);
}

#[test]
fn checked_remote_paths_are_their_own_checked_form() {
    for v in [" /a ", "\u{2003}~/x y\t", "/"] {
        let p = sanitize_remote_path(v).unwrap();
        assert_eq!(sanitize_remote_path(&p).unwrap(), p);
    }
}

#[test]
fn hosts_with_parentheses_are_refused() {
    assert_eq!(
        message(sanitize_host("a(b")),
        "remote host contains unsupported characters"
    );
    assert_eq!(
        message(sanitize_host("a)b")),
        "remote host contains unsupported characters"
    );
    assert_eq!(
        message(sanitize_host("$(reboot)")),
        "remote host contains unsupported characters"
    );
}

fn sample_config() -> AppConfig {
    AppConfig {
        remote_host: "me@nas".to_string(),
        remote_path: "/media/tv".to_string(),
        local_dir: "/home/me/Videos".to_string(),
    }
}

#[test]
fn settings_text_has_one_line_per_setting() {
    assert_eq!(
        config_text(&sample_config()),
        "remote_host=me@nas\nremote_path=/media/tv\nlocal_dir=/home/me/Videos\n"
    );
}

#[test]
fn saved_settings_read_back_as_they_were() {
    let c = sample_config();
    let parsed = parse_config(&config_text(&c), defaults(), Some("/home/me")).unwrap();
    assert_eq!(parsed.config.remote_host, c.remote_host);
    assert_eq!(parsed.config.remote_path, c.remote_path);
    assert_eq!(parsed.config.local_dir, c.local_dir);
    assert_eq!(parsed.local_dirs, vec![c.local_dir.clone()]);
}

#[test]
fn settings_file_path_follows_the_environment() {
    assert_eq!(
        config_path_from(Some("/xdg"), Some("/home/me")),
        "/xdg/transit/config"
    );
    assert_eq!(
        config_path_from(Some("/xdg/"), None),
        "/xdg/transit/config"
    );
    assert_eq!(
        config_path_from(None, Some("/home/me")),
        "/home/me/.config/transit/config"
    );
    assert_eq!(config_path_from(None, None), ".transit-config");
}

#[test]
fn default_source_directory_prefers_downloads() {
    assert_eq!(downloads_dir("/home/me"), "/home/me/Downloads");
    assert_eq!(
        default_local_dir_from(Some("/home/me"), true, Some("/work")),
        "/home/me/Downloads"
    );
    assert_eq!(
        default_local_dir_from(Some("/home/me"), false, Some("/work")),
        "/work"
    );
    assert_eq!(default_local_dir_from(None, true, Some("/work")), "/work");
    assert_eq!(default_local_dir_from(None, false, None), ".");
}
