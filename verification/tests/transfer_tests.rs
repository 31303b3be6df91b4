use transit::transfer::{
    parse_remote_size, parse_u64, remote_size_script, remote_target_path, scp_args,
    scp_destination, upload_outcome, TransferCommand, UploadWorker, WorkerStep,
};

#[test]
fn builds_scp_destination_without_shell_quotes() {
    assert_eq!(
        scp_destination("user@example", "/remote/media"),
        "user@example:/remote/media/"
    );
    assert_eq!(
        scp_destination("user@example", "/remote/media/TV Shows"),
        "user@example:/remote/media/TV Shows/"
    );
}

#[test]
fn builds_remote_target_path_from_local_file_name() {
    assert_eq!(
        remote_target_path("/remote/media", "/Users/aloewenthal/Downloads/movie.mkv"),
        "/remote/media/movie.mkv"
    );
}

#[test]
fn remote_target_of_a_path_without_file_name() {
    assert_eq!(remote_target_path("/remote", "/"), "/remote");
    assert_eq!(remote_target_path("/remote/", "dir/.."), "/remote/");
    assert_eq!(remote_target_path("/remote/", "a/b/"), "/remote/b");
}

#[test]
fn builds_scp_and_size_commands() {
    assert_eq!(
        scp_args("/l/f", "h:/r/"),
        vec![
            "-o",
            "BatchMode=yes",
            "-o",
            "ConnectTimeout=5",
            "-o",
            "ConnectionAttempts=1",
            "-r",
            "/l/f",
            "h:/r/"
        ]
    );
    assert_eq!(
        remote_size_script("/r/a b"),
        "if [ -d '/r/a b' ]; then du -sb '/r/a b' 2>/dev/null | awk '{print $1}'; elif [ -f '/r/a b' ]; then stat -c %s '/r/a b' 2>/dev/null; fi"
    );
}

#[test]
fn parses_numbers_like_str_parse() {
    let cases = [
        "", "+", "-", "0", "+0", "-0", "12", "+12", "1 2", "18446744073709551615",
        "18446744073709551616", "99999999999999999999", "0018", "1a", "٣",
    ];
    for c in cases {
        assert_eq!(parse_u64(c), c.parse::<u64>().ok(), "{c:?}");
    }
}

#[test]
fn reads_remote_sizes() {
    assert_eq!(parse_remote_size("1234\t/x\n"), None);
    assert_eq!(parse_remote_size(" 1234 \nmore"), Some(1234));
    assert_eq!(parse_remote_size(""), None);
    assert_eq!(parse_remote_size("\n5"), None);
}

#[test]
fn reports_upload_outcomes() {
    assert_eq!(upload_outcome(true, "x"), (true, "uploaded".to_string()));
    assert_eq!(upload_outcome(false, " lost connection\n"), (false, "lost connection".to_string()));
}

#[test]
fn worker_goes_through_the_queue_in_order() {
    let mut w = UploadWorker::new(3);
    match w.next_step(vec![TransferCommand::Cancel(2)]) {
        WorkerStep::Upload { index: 1, total: 3 } => {}
        other => panic!("{other:?}"),
    }
    w.record(vec![TransferCommand::Cancel(1)]);
    match w.next_step(vec![]) {
        WorkerStep::Skip { index: 2, total: 3 } => {}
        other => panic!("{other:?}"),
    }
    match w.next_step(vec![]) {
        WorkerStep::Upload { index: 3, total: 3 } => {}
        other => panic!("{other:?}"),
    }
    assert!(matches!(w.next_step(vec![]), WorkerStep::Complete));
    assert!(matches!(w.next_step(vec![]), WorkerStep::Complete));
}

#[test]
fn late_and_out_of_range_cancels_skip_nothing() {
    let mut w = UploadWorker::new(2);
    match w.next_step(vec![TransferCommand::Cancel(0), TransferCommand::Cancel(5)]) {
        WorkerStep::Upload { index: 1, total: 2 } => {}
        other => panic!("{other:?}"),
    }
    w.record(vec![TransferCommand::Cancel(1)]);
    match w.next_step(vec![]) {
        WorkerStep::Upload { index: 2, total: 2 } => {}
        other => panic!("{other:?}"),
    }
    assert!(matches!(w.next_step(vec![TransferCommand::Cancel(2)]), WorkerStep::Complete));
}

#[test]
fn file_names_follow_path_normalization() {
    assert_eq!(remote_target_path("/r", "foo.txt/."), "/r/foo.txt");
    assert_eq!(remote_target_path("/r", "foo.txt/.//"), "/r/foo.txt");
    assert_eq!(remote_target_path("/r", "a//b//"), "/r/b");
    assert_eq!(remote_target_path("/r", "./x"), "/r/x");
    assert_eq!(remote_target_path("/r", "."), "/r");
    assert_eq!(remote_target_path("/r", "./"), "/r");
    assert_eq!(remote_target_path("/r", ""), "/r");
    assert_eq!(remote_target_path("/r", "a/./.."), "/r");
    assert_eq!(remote_target_path("/r", "a/../b"), "/r/b");
}
