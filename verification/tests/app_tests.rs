use transit::app::{
    ActivePane, App, AppCommand, InputMode, Key, KeyPress, RemotePoll, Request, Startup,
    TransferPoll, TransferStatus, UploadQueueItem, UploadStatus, ViewMode,
};
use transit::config::AppConfig;
use transit::local::DirEntryInfo;
use transit::remote::{RemoteEntry, RemoteListing};
use transit::transfer::TransferEvent;

fn key(c: char) -> KeyPress {
    KeyPress { code: Key::Char(c), ctrl: false }
}

fn special(code: Key) -> KeyPress {
    KeyPress { code, ctrl: false }
}

fn info(name: &str, is_dir: bool, len: u64) -> DirEntryInfo {
    DirEntryInfo {
        name: name.to_string(),
        path: format!("/data/{name}"),
        is_dir,
        len,
    }
}

fn infos() -> Vec<DirEntryInfo> {
    vec![
        info("movie.MKV", false, 2048),
        info("Shows", true, 4096),
        info("notes", false, 10),
    ]
}

fn startup(host: Option<&str>, needs_init: bool) -> Startup {
    Startup {
        remote_host: host.map(|h| h.to_string()),
        remote_path: "/remote".to_string(),
        local_dir: "/data".to_string(),
        needs_init,
    }
}

fn ready_app() -> App {
    let mut app = App::new(startup(Some("nas"), false), Some("/home/me".to_string()), infos());
    let cmds = app.take_commands();
    assert_eq!(cmds.len(), 1);
    app
}

#[test]
fn new_lists_directories_first_and_asks_for_the_remote_listing() {
    let mut app = App::new(startup(Some("nas"), false), None, infos());
    let names: Vec<&str> = app.local_entries.iter().map(|e| e.name.as_str()).collect();
    assert_eq!(names, vec!["Shows", "movie.MKV", "notes"]);
    assert_eq!(app.local_entries[0].file_type, "dir");
    assert_eq!(app.local_entries[1].file_type, "mkv");
    assert_eq!(app.local_entries[2].file_type, "file");
    assert_eq!(app.local_entries[0].size, None);
    assert_eq!(app.local_entries[1].size, Some(2048));
    assert!(app.remote_loading);
    assert_eq!(app.logs, vec!["Loading remote nas:/remote".to_string()]);
    match app.take_commands().as_slice() {
        [AppCommand::ListRemote { host, path }] => {
            assert_eq!(host, "nas");
            assert_eq!(path, "/remote");
        }
        other => panic!("{other:?}"),
    }
    assert!(app.take_commands().is_empty());
}

#[test]
fn new_without_host_prompts_for_one() {
    let app = App::new(startup(None, false), None, vec![]);
    assert_eq!(app.input_mode, InputMode::EditingHost);
    assert_eq!(app.input_title(), "Remote host");
    assert_eq!(
        app.logs,
        vec!["Enter a remote host, e.g. user@nas or an SSH config alias.".to_string()]
    );
}

#[test]
fn init_flow_walks_through_the_three_settings() {
    let mut app = App::new(startup(Some(""), true), Some("/home/me".to_string()), infos());
    assert_eq!(app.input_mode, InputMode::EditingHost);
    for c in "me@nas".chars() {
        assert!(app.handle_key(key(c)).is_none());
    }
    assert!(app.handle_key(special(Key::Enter)).is_none());
    assert_eq!(app.input_mode, InputMode::EditingRemotePath);
    assert_eq!(app.remote_host, "me@nas");
    assert_eq!(app.input_buffer, "/remote");
    assert!(app.handle_key(special(Key::Enter)).is_none());
    assert_eq!(app.input_mode, InputMode::EditingLocalPath);
    assert_eq!(app.input_buffer, "/data");
    for _ in 0..5 {
        app.handle_key(special(Key::Backspace));
    }
    for c in "~/Videos".chars() {
        app.handle_key(key(c));
    }
    match app.handle_key(special(Key::Enter)) {
        Some(Request::CheckLocalDir { path }) => assert_eq!(path, "/home/me/Videos"),
        other => panic!("{other:?}"),
    }
    match app.local_dir_checked(true) {
        Some(Request::ReadLocalDir { path }) => assert_eq!(path, "/home/me/Videos"),
        other => panic!("{other:?}"),
    }
    match app.local_listing_loaded(Ok(vec![])) {
        Some(Request::SaveConfig { config }) => {
            assert_eq!(config.remote_host, "me@nas");
            assert_eq!(config.remote_path, "/remote");
            assert_eq!(config.local_dir, "/home/me/Videos");
        }
        other => panic!("{other:?}"),
    }
    app.config_saved(Ok("/home/me/.config/transit/config".to_string()));
    assert_eq!(app.input_mode, InputMode::Normal);
    assert_eq!(app.input_buffer, "");
    assert!(app.remote_loading);
    assert!(app
        .logs
        .contains(&"Init saved to /home/me/.config/transit/config.".to_string()));
}

#[test]
fn missing_source_directory_keeps_the_input_open() {
    let mut app = ready_app();
    app.handle_key(special(Key::Tab));
    assert_eq!(app.active_pane, ActivePane::Remote);
    app.handle_key(special(Key::Tab));
    // open the source directory prompt through a failed save-less edit
    let mut app2 = App::new(startup(Some("nas"), true), None, vec![]);
    app2.handle_key(special(Key::Enter));
    app2.handle_key(special(Key::Enter));
    assert_eq!(app2.input_mode, InputMode::EditingLocalPath);
    assert!(matches!(
        app2.handle_key(special(Key::Enter)),
        Some(Request::CheckLocalDir { .. })
    ));
    assert!(app2.local_dir_checked(false).is_none());
    assert_eq!(app2.input_mode, InputMode::EditingLocalPath);
    assert_eq!(
        app2.logs.last().unwrap(),
        "Invalid source directory: source directory does not exist: /data"
    );
    let _ = app;
}

#[test]
fn invalid_host_input_is_refused_with_its_reason() {
    let mut app = ready_app();
    app.handle_key(key('o'));
    assert_eq!(app.input_mode, InputMode::EditingHost);
    for c in " x".chars() {
        app.handle_key(key(c));
    }
    app.handle_key(special(Key::Enter));
    assert_eq!(app.input_mode, InputMode::EditingHost);
    assert_eq!(
        app.logs.last().unwrap(),
        "Invalid remote host: remote host cannot contain whitespace"
    );
    app.handle_key(special(Key::Esc));
    assert_eq!(app.input_mode, InputMode::Normal);
    assert_eq!(app.input_buffer, "");
}

#[test]
fn ctrl_c_quits_and_ctrl_chars_are_not_typed() {
    let mut app = ready_app();
    app.handle_key(key('o'));
    app.handle_key(KeyPress { code: Key::Char('z'), ctrl: true });
    assert_eq!(app.input_buffer, "nas");
    app.handle_key(KeyPress { code: Key::Char('c'), ctrl: true });
    assert!(app.should_quit);
}

#[test]
fn selection_stays_inside_the_list() {
    let mut app = ready_app();
    app.handle_key(key('k'));
    assert_eq!(app.local_selected, 0);
    for _ in 0..10 {
        app.handle_key(key('j'));
    }
    assert_eq!(app.local_selected, 2);
    app.move_selection(-100);
    assert_eq!(app.local_selected, 0);
}

#[test]
fn marks_toggle_and_decide_what_uploads() {
    let mut app = ready_app();
    app.handle_key(key('j'));
    let req = app.handle_key(key(' '));
    assert!(matches!(req, Some(Request::ReadLocalDir { .. })));
    app.local_listing_loaded(Ok(infos()));
    assert!(app.local_entries[1].marked);
    assert_eq!(app.paths_to_upload(), vec!["/data/movie.MKV".to_string()]);
    app.handle_key(key(' '));
    app.local_listing_loaded(Ok(infos()));
    assert!(!app.local_entries[1].marked);
    assert!(app.local_marks.is_empty());
    assert_eq!(app.paths_to_upload(), vec!["/data/movie.MKV".to_string()]);
}

#[test]
fn upload_queues_items_and_shows_the_transfer_page() {
    let mut app = ready_app();
    app.handle_key(key(' '));
    app.local_listing_loaded(Ok(infos()));
    app.handle_key(key('j'));
    app.handle_key(key(' '));
    app.local_listing_loaded(Ok(infos()));
    app.handle_key(key('u'));
    assert_eq!(app.view_mode, ViewMode::Transfers);
    assert!(app.transferring);
    let names: Vec<&str> = app.transfer_queue.iter().map(|i| i.name.as_str()).collect();
    assert_eq!(names, vec!["Shows", "movie.MKV"]);
    assert!(app.transfer_queue.iter().all(|i| i.status == UploadStatus::Queued));
    assert_eq!(
        app.logs.last().unwrap(),
        "Queued 2 item(s) for upload to nas:/remote"
    );
    match app.take_commands().as_slice() {
        [AppCommand::StartUpload { paths, host, remote_dir }] => {
            assert_eq!(paths, &vec!["/data/Shows".to_string(), "/data/movie.MKV".to_string()]);
            assert_eq!(host, "nas");
            assert_eq!(remote_dir, "/remote");
        }
        other => panic!("{other:?}"),
    }
    app.handle_key(key('u'));
    assert_eq!(app.logs.last().unwrap(), "Queued 2 item(s) for upload to nas:/remote");
    app.handle_key(key('t'));
    assert_eq!(app.view_mode, ViewMode::Browser);
    app.handle_key(key('u'));
    assert_eq!(app.logs.last().unwrap(), "A transfer is already running.");
}

#[test]
fn only_queued_items_can_be_canceled() {
    let mut app = ready_app();
    app.handle_key(key('u'));
    app.take_commands();
    app.drain_transfer_events(vec![TransferPoll::Event(TransferEvent::Started {
        path: "/data/Shows".to_string(),
        index: 1,
        total: 1,
        bytes_total: Some(10),
    })]);
    assert_eq!(app.transfer_queue[0].status, UploadStatus::Active);
    app.handle_key(key('x'));
    assert_eq!(app.logs.last().unwrap(), "Only queued uploads can be canceled.");
    assert!(app.take_commands().is_empty());
}

#[test]
fn canceling_a_queued_item_tells_the_worker() {
    let mut app = ready_app();
    app.handle_key(key(' '));
    app.local_listing_loaded(Ok(infos()));
    app.handle_key(key('j'));
    app.handle_key(key(' '));
    app.local_listing_loaded(Ok(infos()));
    app.handle_key(key('u'));
    app.take_commands();
    app.handle_key(key('j'));
    app.handle_key(key('x'));
    assert_eq!(app.transfer_queue[1].status, UploadStatus::Canceled);
    assert_eq!(app.transfer_queue[1].message.as_deref(), Some("canceled"));
    assert_eq!(app.transfer_queue[0].status, UploadStatus::Queued);
    assert_eq!(app.logs.last().unwrap(), "Canceled queued item 2: movie.MKV");
    match app.take_commands().as_slice() {
        [AppCommand::CancelUpload(2)] => {}
        other => panic!("{other:?}"),
    }
}

#[test]
fn transfer_events_update_the_queue_until_complete() {
    let mut app = ready_app();
    app.handle_key(key('u'));
    app.take_commands();
    let r = app.drain_transfer_events(vec![
        TransferPoll::Event(TransferEvent::Started {
            path: "/data/Shows".to_string(),
            index: 1,
            total: 1,
            bytes_total: Some(4096),
        }),
        TransferPoll::Event(TransferEvent::Progress {
            path: "/data/Shows".to_string(),
            index: 1,
            total: 1,
            bytes_sent: Some(100),
            bytes_total: None,
            elapsed_secs: 2,
        }),
        TransferPoll::Empty,
    ]);
    assert!(r.is_none());
    let item: &UploadQueueItem = &app.transfer_queue[0];
    assert_eq!(item.bytes_sent, Some(100));
    assert_eq!(item.bytes_total, Some(4096));
    assert_eq!(item.elapsed_secs, 2);
    match &app.transfer_status {
        Some(TransferStatus::Progress { index: 1, total: 1, name, .. }) => assert_eq!(name, "Shows"),
        other => panic!("{other:?}"),
    }
    let r = app.drain_transfer_events(vec![
        TransferPoll::Event(TransferEvent::Finished {
            path: "/data/Shows".to_string(),
            index: 1,
            total: 1,
            success: true,
            message: "uploaded".to_string(),
            bytes_sent: Some(4096),
            bytes_total: Some(4096),
            elapsed_secs: 3,
        }),
        TransferPoll::Event(TransferEvent::Complete),
    ]);
    assert_eq!(app.transfer_queue[0].status, UploadStatus::Done);
    assert!(!app.transferring);
    assert!(matches!(app.transfer_status, Some(TransferStatus::Complete)));
    assert!(matches!(r, Some(Request::ReadLocalDir { .. })));
    assert!(app.logs.contains(&"Done: /data/Shows (uploaded)".to_string()));
    app.local_listing_loaded(Ok(infos()));
    assert_eq!(app.logs.last().unwrap(), "Transfer complete.");
}

#[test]
fn remote_listing_replaces_the_remote_pane() {
    let mut app = ready_app();
    app.drain_remote_events(RemotePoll::Empty);
    assert!(app.remote_loading);
    app.drain_remote_events(RemotePoll::Received(Ok(RemoteListing {
        cwd: "/srv/remote".to_string(),
        entries: vec![RemoteEntry {
            name: "tv".to_string(),
            path: "/srv/remote/tv".to_string(),
            is_dir: true,
        }],
    })));
    assert!(!app.remote_loading);
    assert_eq!(app.remote_cwd, "/srv/remote");
    assert_eq!(app.logs.last().unwrap(), "Remote refreshed.");
    app.handle_key(special(Key::Tab));
    app.handle_key(special(Key::Enter));
    assert_eq!(app.remote_cwd, "/srv/remote/tv");
    assert_eq!(app.remote_selected, 0);
    app.drain_remote_events(RemotePoll::Disconnected);
    assert!(app.remote_entries.is_empty());
    assert_eq!(
        app.logs.last().unwrap(),
        "Remote refresh failed: remote worker disconnected"
    );
    app.handle_key(key('h'));
    assert_eq!(app.remote_cwd, "/srv/remote");
}

#[test]
fn the_log_keeps_eight_messages() {
    let mut app = ready_app();
    for i in 0..20 {
        app.log(format!("m{i}"));
    }
    assert_eq!(app.logs.len(), 8);
    assert_eq!(app.logs[0], "m12");
}

#[test]
fn startup_reads_arguments() {
    let defaults = AppConfig::defaults("/d".to_string());
    let s = Startup::from_args(
        vec!["init".to_string(), "ssh://me@nas/x".to_string(), " /m ".to_string()],
        None,
        defaults.clone(),
    )
    .unwrap();
    assert_eq!(s.remote_host.as_deref(), Some("me@nas"));
    assert_eq!(s.remote_path, "/m");
    assert!(s.needs_init);
    let stored = AppConfig {
        remote_host: "nas".to_string(),
        remote_path: "/p".to_string(),
        local_dir: "/l".to_string(),
    };
    let s = Startup::from_args(vec![], Some(stored.clone()), defaults.clone()).unwrap();
    assert_eq!(s.remote_host.as_deref(), Some("nas"));
    assert_eq!(s.local_dir, "/l");
    assert!(!s.needs_init);
    let s = Startup::from_args(vec!["--init".to_string()], Some(stored), defaults.clone()).unwrap();
    assert!(s.needs_init);
    assert!(Startup::from_args(vec!["bad host".to_string()], None, defaults).is_err());
}

#[test]
fn parent_of_the_local_directory_is_read() {
    let mut app = ready_app();
    match app.handle_key(key('h')) {
        Some(Request::ReadLocalDir { path }) => assert_eq!(path, "/"),
        other => panic!("{other:?}"),
    }
    assert_eq!(app.local_cwd, "/");
    assert!(app.local_listing_loaded(Err("denied".to_string())).is_none());
    assert_eq!(app.logs.last().unwrap(), "Local refresh failed: denied");
}

#[test]
fn toggling_twice_returns_to_the_same_page_and_pane() {
    let mut app = ready_app();
    app.handle_key(key('t'));
    assert_eq!(app.view_mode, ViewMode::Transfers);
    app.handle_key(key('t'));
    assert_eq!(app.view_mode, ViewMode::Browser);
    app.toggle_active_pane();
    app.toggle_active_pane();
    assert_eq!(app.active_pane, ActivePane::Local);
}

#[test]
fn worker_reports_keep_the_queue_length() {
    let mut app = ready_app();
    app.handle_key(key('u'));
    app.take_commands();
    app.drain_transfer_events(vec![TransferPoll::Event(TransferEvent::Canceled {
        path: "/data/Shows".to_string(),
        index: 7,
        total: 9,
    })]);
    assert_eq!(app.transfer_queue.len(), 1);
    assert_eq!(app.transfer_queue[0].status, UploadStatus::Queued);
    assert_eq!(app.logs.last().unwrap(), "Continuing with queued item 8/9.");
    match &app.transfer_status {
        Some(TransferStatus::Canceled { index: 7, total: 9, name }) => assert_eq!(name, "Shows"),
        other => panic!("{other:?}"),
    }
}

#[test]
fn marks_upload_in_listing_order_and_survive_leaving_the_directory() {
    let mut app = ready_app();
    app.handle_key(key('j'));
    app.handle_key(key('j'));
    app.handle_key(key(' '));
    assert!(app.awaiting_answer());
    app.local_listing_loaded(Ok(infos()));
    assert!(!app.awaiting_answer());
    app.handle_key(key('k'));
    app.handle_key(key(' '));
    app.local_listing_loaded(Ok(infos()));
    assert_eq!(
        app.paths_to_upload(),
        vec!["/data/movie.MKV".to_string(), "/data/notes".to_string()]
    );
    match app.handle_key(key('h')) {
        Some(Request::ReadLocalDir { path }) => assert_eq!(path, "/"),
        other => panic!("{other:?}"),
    }
    app.local_listing_loaded(Ok(vec![DirEntryInfo {
        name: "etc".to_string(),
        path: "/etc".to_string(),
        is_dir: true,
        len: 0,
    }]));
    assert_eq!(
        app.paths_to_upload(),
        vec!["/data/notes".to_string(), "/data/movie.MKV".to_string()]
    );
}
