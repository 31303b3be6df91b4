use transit::local::{file_type, format_size, local_entry_line, LocalEntry};
use transit::text::{char_is_control, char_is_whitespace, lines, trim, u64_to_string};

fn float_format_size(size: Option<u64>) -> String {
    let Some(size) = size else {
        return String::new();
    };
    const UNITS: [&str; 5] = ["B", "KB", "MB", "GB", "TB"];
    let mut value = size as f64;
    let mut unit = 0;
    while value >= 1024.0 && unit < UNITS.len() - 1 {
        value /= 1024.0;
        unit += 1;
    }
    if unit == 0 {
        format!("{size} {}", UNITS[unit])
    } else {
        format!("{value:.1} {}", UNITS[unit])
    }
}

#[test]
fn formats_sizes() {
    assert_eq!(format_size(None), "");
    assert_eq!(format_size(Some(0)), "0 B");
    assert_eq!(format_size(Some(1023)), "1023 B");
    assert_eq!(format_size(Some(1024)), "1.0 KB");
    assert_eq!(format_size(Some(1536)), "1.5 KB");
    assert_eq!(format_size(Some(1048575)), "1024.0 KB");
    assert_eq!(format_size(Some(5 * 1024 * 1024 * 1024)), "5.0 GB");
}

#[test]
fn formats_sizes_as_the_float_version_does() {
    let mut values: Vec<u64> = vec![
        0, 1, 1023, 1024, 1025, 1075, 1126, 1177, 1228, 1280, 2047, 2048, 10239, 10240,
        1048575, 1048576, 1073741823, 1073741824, 1099511627775, 1099511627776,
        u64::MAX, u64::MAX - 1, 1 << 53, (1 << 53) + 1, (1 << 54) + 3, (1 << 60) + 12345,
        9007199254740993, 18014398509481985, 123456789012345678,
    ];
    // ties at tenths: 1024 * (k + 0.05) for many k
    for k in 0..2000u64 {
        values.push(k * 1024 / 10 * 10 / 10);
        values.push(1024 * k + 51);
        values.push(1024 * k + 52);
        values.push(1024 * k + 512);
        values.push(102 * k + 51);
        values.push(1048576 * k + 52429);
        values.push(1048576 * k + 524288);
    }
    let mut x: u64 = 0x9E3779B97F4A7C15;
    for _ in 0..20000 {
        x ^= x << 13;
        x ^= x >> 7;
        x ^= x << 17;
        values.push(x >> (x % 64));
        values.push(x);
    }
    for v in values {
        assert_eq!(format_size(Some(v)), float_format_size(Some(v)), "{v}");
    }
}

#[test]
fn classifies_characters_as_std_does() {
    for u in 0u32..0x110000 {
        if let Some(c) = char::from_u32(u) {
            assert_eq!(char_is_whitespace(c), c.is_whitespace(), "{u:x}");
            assert_eq!(char_is_control(c), c.is_control(), "{u:x}");
        }
    }
}

#[test]
fn trims_and_splits_as_std_does() {
    let samples = [
        "", " ", "a", " a ", "\u{3000}x\u{85}", "a\nb", "a\r\nb\r\n", "a\r", "\n", "\n\n",
        "x\r\r\n", "a\nb\n\n", "\r\n", " lead\ttrail \u{2029}",
    ];
    for s in samples {
        assert_eq!(trim(s), s.trim(), "{s:?}");
        let ours = lines(s);
        let theirs: Vec<String> = s.lines().map(|l| l.to_string()).collect();
        assert_eq!(ours, theirs, "{s:?}");
    }
}

#[test]
fn writes_decimals() {
    for v in [0u64, 7, 10, 99, 100, 12345, u64::MAX] {
        assert_eq!(u64_to_string(v), v.to_string());
    }
}

fn entry(name: &str, is_dir: bool, file_type: &str, size: Option<u64>, marked: bool) -> LocalEntry {
    LocalEntry {
        name: name.to_string(),
        path: format!("/data/{name}"),
        is_dir,
        file_type: file_type.to_string(),
        size,
        marked,
    }
}

fn formatted_line(e: &LocalEntry) -> String {
    let marker = if e.marked { "*" } else { " " };
    let kind = if e.is_dir { "[D]" } else { "[F]" };
    let size = format_size(e.size);
    if size.is_empty() {
        format!("{marker} {kind} {:<6} {}", e.file_type, e.name)
    } else {
        format!("{marker} {kind} {:<6} {:<44} {size}", e.file_type, e.name)
    }
}

#[test]
fn local_lines_show_type_name_and_size_columns() {
    let dir = entry("Shows", true, "dir", None, false);
    assert_eq!(local_entry_line(&dir), "  [D] dir    Shows");
    let file = entry("movie.mkv", false, "mkv", Some(2048), true);
    assert_eq!(
        local_entry_line(&file),
        format!("* [F] mkv    {:<44} 2.0 KB", "movie.mkv")
    );
    let long = entry(&"x".repeat(50), false, "archive", Some(10), false);
    assert_eq!(local_entry_line(&long), formatted_line(&long));
    let wide = entry("été.flac", false, "flac", Some(5), false);
    assert_eq!(local_entry_line(&wide), formatted_line(&wide));
    for e in [dir, file] {
        assert_eq!(local_entry_line(&e), formatted_line(&e));
    }
}

#[test]
fn type_column_follows_the_documented_extension() {
    assert_eq!(file_type("a/.bashrc", false), "file");
    assert_eq!(file_type("a/x.tar.GZ", false), "gz");
    assert_eq!(file_type("a/b.", false), "file");
    assert_eq!(file_type("a/..x", false), "x");
    assert_eq!(file_type("a/.x.Y", false), "y");
    assert_eq!(file_type("noext", false), "file");
    assert_eq!(file_type("dir.d/", false), "d");
    assert_eq!(file_type("a/..", false), "file");
    assert_eq!(file_type("a/.", false), "file");
    assert_eq!(file_type("x.MKV/.", false), "mkv");
    assert_eq!(file_type("x.MKV", true), "dir");
}
