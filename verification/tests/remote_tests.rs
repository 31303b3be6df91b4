use transit::remote::{
    cd_command, ensure_trailing_slash, join_posix, list_request, listing_failure,
    listing_script, parent_path, parse_listing, shell_quote,
};

#[test]
fn quotes_remote_shell_paths() {
    assert_eq!(shell_quote("/Volumes/Media"), "'/Volumes/Media'");
    assert_eq!(shell_quote("a b"), "'a b'");
    assert_eq!(shell_quote("it's"), "'it'\\''s'");
}

#[test]
fn finds_posix_parents() {
    assert_eq!(parent_path("/"), "/");
    assert_eq!(parent_path("/media/movies"), "/media");
    assert_eq!(parent_path("/media/movies/"), "/media");
    assert_eq!(parent_path("relative/path"), "relative");
}

#[test]
fn builds_cd_commands() {
    assert_eq!(cd_command("~"), "cd");
    assert_eq!(cd_command("~/Media Library"), "cd \"$HOME\"/'Media Library'");
    assert_eq!(cd_command("/Volumes/Media"), "cd '/Volumes/Media'");
}

#[test]
fn more_parents_and_joins() {
    assert_eq!(parent_path(""), "/");
    assert_eq!(parent_path("///"), "/");
    assert_eq!(parent_path("/media"), "/");
    assert_eq!(parent_path("movies"), ".");
    assert_eq!(join_posix("/media/", "tv"), "/media/tv");
    assert_eq!(join_posix("/", "tv"), "/tv");
    assert_eq!(join_posix("", "tv"), "/tv");
    assert_eq!(join_posix("rel", "tv"), "rel/tv");
    for (dir, child) in [("/a/b", "c"), ("/a/b//", "c"), ("/", "x"), ("~", "y")] {
        let joined = join_posix(dir, child);
        let trimmed = dir.trim_end_matches('/');
        let expected = if trimmed.is_empty() { "/" } else { trimmed };
        assert_eq!(parent_path(&joined), expected);
    }
}

#[test]
fn trailing_slash_is_added_once() {
    assert_eq!(ensure_trailing_slash("/a"), "/a/");
    assert_eq!(ensure_trailing_slash("/a/"), "/a/");
    assert_eq!(ensure_trailing_slash(""), "/");
    assert_eq!(ensure_trailing_slash(&ensure_trailing_slash("x")), "x/");
}

#[test]
fn empty_values_quote_to_an_empty_word() {
    assert_eq!(shell_quote(""), "''");
    assert_eq!(shell_quote("''"), "''\\'''\\'''");
    assert_eq!(cd_command(""), "cd");
}

#[test]
fn builds_listing_requests() {
    assert_eq!(
        listing_script("/m"),
        "cd '/m' && pwd -P && LC_ALL=C ls -A1p"
    );
    let args = list_request("nas", "~").unwrap();
    assert_eq!(
        args,
        vec![
            "-o",
            "BatchMode=yes",
            "-o",
            "ConnectTimeout=5",
            "-o",
            "ConnectionAttempts=1",
            "nas",
            "cd && pwd -P && LC_ALL=C ls -A1p"
        ]
    );
    assert_eq!(list_request("  ", "/").unwrap_err(), "set a remote host first");
    assert_eq!(listing_failure("  \n"), "ssh listing failed: unknown error");
    assert_eq!(listing_failure(" denied\n"), "ssh listing failed: denied");
}

#[test]
fn parses_listings_directories_first() {
    let out = "/srv/media\nb.txt\nA/\n\nc/\na.txt\nB.txt\n";
    let listing = parse_listing(out, "~");
    assert_eq!(listing.cwd, "/srv/media");
    let names: Vec<(String, bool, String)> = listing
        .entries
        .iter()
        .map(|e| (e.name.clone(), e.is_dir, e.path.clone()))
        .collect();
    assert_eq!(
        names,
        vec![
            ("A".to_string(), true, "/srv/media/A".to_string()),
            ("c".to_string(), true, "/srv/media/c".to_string()),
            ("a.txt".to_string(), false, "/srv/media/a.txt".to_string()),
            ("b.txt".to_string(), false, "/srv/media/b.txt".to_string()),
            ("B.txt".to_string(), false, "/srv/media/B.txt".to_string()),
        ]
    );
    let empty = parse_listing("", "/asked");
    assert_eq!(empty.cwd, "/asked");
    assert!(empty.entries.is_empty());
}

/// What a POSIX shell reads from a word of single-quoted runs and
/// backslash escapes.
fn shell_word_value(q: &str) -> Option<String> {
    let mut out = String::new();
    let mut chars = q.chars();
    let mut quoted = false;
    while let Some(c) = chars.next() {
        if quoted {
            if c == '\'' {
                quoted = false;
            } else {
                out.push(c);
            }
        } else if c == '\'' {
            quoted = true;
        } else if c == '\\' {
            out.push(chars.next()?);
        } else {
            return None;
        }
    }
    if quoted {
        None
    } else {
        Some(out)
    }
}

#[test]
fn quoted_words_read_back_as_the_value() {
    for v in ["", "plain", "a b", "it's", "''", "\\'\"$(rm -rf /)`x`", "~/Media Library", "ünï'cödé"] {
        assert_eq!(shell_word_value(&shell_quote(v)).as_deref(), Some(v), "{v:?}");
    }
}
