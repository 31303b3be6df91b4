//! The browser and upload queue as a state machine. Keys, the answers of the
//! file system and the messages of background workers come in; what the
//! machine needs done outside (read a directory, check or save something,
//! start ssh or scp) goes out as a request or a command.
use vstd::prelude::*;
use vstd::string::*;
use crate::config::{
    AppConfig, ConfigError, error_message, local_dir_candidate, opt_view, sanitize_host,
    sanitize_remote_path, spec_local_dir_candidate, spec_sanitize_host, spec_sanitize_remote_path,
    is_safe_host, law_sanitize_host_idempotent,
};
use crate::local::{DirEntryInfo, LocalEntry, LocalEntryView, is_listing_of, listing_entries,
    local_views, spec_local_entry,
};
use crate::paths::{file_name, opt_string_view, parent, path_file_name, path_parent};
use crate::remote::{
    RemoteEntry, RemoteEntryView, RemoteListing, parent_path, remote_views, spec_parent_path,
};
use crate::transfer::{TransferEvent, TransferEventView};
use crate::text::{decimal, string_of, trim, trim_ws, usize_to_string, views};

verus! {

#[derive(Clone, Copy, Debug, PartialEq, Eq, Structural)]
pub enum ActivePane {
    Local,
    Remote,
}

#[derive(Clone, Copy, Debug, PartialEq, Eq, Structural)]
pub enum InputMode {
    Normal,
    EditingHost,
    EditingRemotePath,
    EditingLocalPath,
}

#[derive(Clone, Copy, Debug, PartialEq, Eq, Structural)]
pub enum ViewMode {
    Browser,
    Transfers,
}

/// The step of the first-run setup that is being edited.
#[derive(Clone, Copy, Debug, PartialEq, Eq, Structural)]
pub enum InitStep {
    RemoteHost,
    RemotePath,
    LocalPath,
}

#[derive(Clone, Copy, Debug, PartialEq, Eq, Structural)]
pub enum UploadStatus {
    Queued,
    Active,
    Done,
    Failed,
    Canceled,
}

/// One item of the upload queue as the transfer page shows it.
#[derive(Debug)]
pub struct UploadQueueItem {
    pub name: String,
    pub status: UploadStatus,
    pub bytes_sent: Option<u64>,
    pub bytes_total: Option<u64>,
    pub elapsed_secs: u64,
    pub message: Option<String>,
}

pub struct UploadItemView {
    pub name: Seq<char>,
    pub status: UploadStatus,
    pub bytes_sent: Option<u64>,
    pub bytes_total: Option<u64>,
    pub elapsed_secs: u64,
    pub message: Option<Seq<char>>,
}

impl View for UploadQueueItem {
    type V = UploadItemView;

    open spec fn view(&self) -> UploadItemView {
        UploadItemView {
            name: self.name@,
            status: self.status,
            bytes_sent: self.bytes_sent,
            bytes_total: self.bytes_total,
            elapsed_secs: self.elapsed_secs,
            message: opt_string_view(self.message),
        }
    }
}

/// What the status line of the transfer page reports.
#[derive(Clone, Copy, Debug, PartialEq, Eq, Structural)]
pub enum StatusAction {
    Uploading,
    Done,
    Failed,
}

/// The status line of the transfer page; `status::status_text` writes it,
/// given the percentage sent as text.
#[derive(Debug)]
pub enum TransferStatus {
    Canceled { index: usize, total: usize, name: String },
    Progress {
        action: StatusAction,
        index: usize,
        total: usize,
        name: String,
        bytes_sent: Option<u64>,
        bytes_total: Option<u64>,
        elapsed_secs: u64,
    },
    Complete,
}

pub enum TransferStatusView {
    Canceled { index: usize, total: usize, name: Seq<char> },
    Progress {
        action: StatusAction,
        index: usize,
        total: usize,
        name: Seq<char>,
        bytes_sent: Option<u64>,
        bytes_total: Option<u64>,
        elapsed_secs: u64,
    },
    Complete,
}

impl View for TransferStatus {
    type V = TransferStatusView;

    open spec fn view(&self) -> TransferStatusView {
        match self {
            TransferStatus::Canceled { index, total, name } => TransferStatusView::Canceled {
                index: *index,
                total: *total,
                name: name@,
            },
            TransferStatus::Progress {
                action,
                index,
                total,
                name,
                bytes_sent,
                bytes_total,
                elapsed_secs,
            } => TransferStatusView::Progress {
                action: *action,
                index: *index,
                total: *total,
                name: name@,
                bytes_sent: *bytes_sent,
                bytes_total: *bytes_total,
                elapsed_secs: *elapsed_secs,
            },
            TransferStatus::Complete => TransferStatusView::Complete,
        }
    }
}

/// A key press, as far as the browser tells keys apart.
#[derive(Clone, Copy, Debug, PartialEq, Eq, Structural)]
pub enum Key {
    Char(char),
    Esc,
    Enter,
    Tab,
    Up,
    Down,
    Left,
    Backspace,
    Other,
}

/// A key press and whether Control was held.
#[derive(Clone, Copy, Debug, PartialEq, Eq, Structural)]
pub struct KeyPress {
    pub code: Key,
    pub ctrl: bool,
}

/// Work that the state machine hands out and needs no answer to.
#[derive(Debug)]
pub enum AppCommand {
    /// List `path` on `host` in the background; the listing comes back
    /// through `drain_remote_events`.
    ListRemote { host: String, path: String },
    /// Upload `paths` one at a time to `remote_dir` on `host`; the worker's
    /// events come back through `drain_transfer_events`.
    StartUpload { paths: Vec<String>, host: String, remote_dir: String },
    /// Tell the upload worker to skip the item at this 1-based index.
    CancelUpload(usize),
}

pub enum CommandView {
    ListRemote { host: Seq<char>, path: Seq<char> },
    StartUpload { paths: Seq<Seq<char>>, host: Seq<char>, remote_dir: Seq<char> },
    CancelUpload(usize),
}

impl View for AppCommand {
    type V = CommandView;

    open spec fn view(&self) -> CommandView {
        match self {
            AppCommand::ListRemote { host, path } => CommandView::ListRemote {
                host: host@,
                path: path@,
            },
            AppCommand::StartUpload { paths, host, remote_dir } => CommandView::StartUpload {
                paths: views(paths@),
                host: host@,
                remote_dir: remote_dir@,
            },
            AppCommand::CancelUpload(k) => CommandView::CancelUpload(*k),
        }
    }
}

/// Work whose answer the state machine waits for before anything else.
#[derive(Debug)]
pub enum Request {
    /// Read the entries of a local directory; answer with `local_listing_loaded`.
    ReadLocalDir { path: String },
    /// Find out whether a path is a directory; answer with `local_dir_checked`.
    CheckLocalDir { path: String },
    /// Save the settings; answer with `config_saved`.
    SaveConfig { config: AppConfig },
}

pub enum RequestView {
    ReadLocalDir(Seq<char>),
    CheckLocalDir(Seq<char>),
    SaveConfig { remote_host: Seq<char>, remote_path: Seq<char>, local_dir: Seq<char> },
}

impl View for Request {
    type V = RequestView;

    open spec fn view(&self) -> RequestView {
        match self {
            Request::ReadLocalDir { path } => RequestView::ReadLocalDir(path@),
            Request::CheckLocalDir { path } => RequestView::CheckLocalDir(path@),
            Request::SaveConfig { config } => RequestView::SaveConfig {
                remote_host: config.remote_host@,
                remote_path: config.remote_path@,
                local_dir: config.local_dir@,
            },
        }
    }
}

pub open spec fn request_view(r: Option<Request>) -> Option<RequestView> {
    match r {
        Some(q) => Some(q@),
        None => None,
    }
}

/// What comes after a local directory was read.
#[derive(Clone, Copy, Debug, PartialEq, Eq, Structural)]
pub enum AfterRead {
    Nothing,
    /// The source directory typed in was opened: the setup may save next.
    CommitLocal,
    /// The uploads ended: the remote side is listed again.
    TransferComplete,
}

/// Where the state machine goes on once its request is answered.
#[derive(Debug)]
pub enum Resume {
    AfterLocalRead(AfterRead),
    /// The source directory typed in, trimmed, waits on its check.
    AfterDirCheck { value: String },
    AfterSave,
}

pub enum ResumeView {
    AfterLocalRead(AfterRead),
    AfterDirCheck(Seq<char>),
    AfterSave,
}

impl View for Resume {
    type V = ResumeView;

    open spec fn view(&self) -> ResumeView {
        match self {
            Resume::AfterLocalRead(n) => ResumeView::AfterLocalRead(*n),
            Resume::AfterDirCheck { value } => ResumeView::AfterDirCheck(value@),
            Resume::AfterSave => ResumeView::AfterSave,
        }
    }
}

/// The state of the browser and of the upload queue.
pub struct App {
    pub local_cwd: String,
    pub local_entries: Vec<LocalEntry>,
    pub local_selected: usize,
    pub local_marks: Vec<String>,
    pub remote_host: String,
    pub remote_cwd: String,
    pub remote_entries: Vec<RemoteEntry>,
    pub remote_selected: usize,
    pub active_pane: ActivePane,
    pub view_mode: ViewMode,
    pub input_mode: InputMode,
    pub input_buffer: String,
    pub logs: Vec<String>,
    pub remote_loading: bool,
    pub transfer_queue: Vec<UploadQueueItem>,
    pub transfer_selected: usize,
    pub transfer_status: Option<TransferStatus>,
    pub transferring: bool,
    pub should_quit: bool,
    pub init_step: Option<InitStep>,
    pub home: Option<String>,
    pub resume: Option<Resume>,
    pub outbox: Vec<AppCommand>,
}

/// The state as plain values.
#[verifier::ext_equal]
pub struct AppView {
    pub local_cwd: Seq<char>,
    pub local_entries: Seq<LocalEntryView>,
    pub local_selected: usize,
    /// The marked paths, in the order they were marked.
    pub local_marks: Seq<Seq<char>>,
    pub remote_host: Seq<char>,
    pub remote_cwd: Seq<char>,
    pub remote_entries: Seq<RemoteEntryView>,
    pub remote_selected: usize,
    pub active_pane: ActivePane,
    pub view_mode: ViewMode,
    pub input_mode: InputMode,
    pub input_buffer: Seq<char>,
    pub logs: Seq<Seq<char>>,
    pub remote_loading: bool,
    pub transfer_queue: Seq<UploadItemView>,
    pub transfer_selected: usize,
    pub transfer_status: Option<TransferStatusView>,
    pub transferring: bool,
    pub should_quit: bool,
    pub init_step: Option<InitStep>,
    pub home: Option<Seq<char>>,
    pub resume: Option<ResumeView>,
    pub outbox: Seq<CommandView>,
}

pub open spec fn status_view(s: Option<TransferStatus>) -> Option<TransferStatusView> {
    match s {
        Some(t) => Some(t@),
        None => None,
    }
}

pub open spec fn resume_view(r: Option<Resume>) -> Option<ResumeView> {
    match r {
        Some(x) => Some(x@),
        None => None,
    }
}

pub open spec fn queue_views(q: Seq<UploadQueueItem>) -> Seq<UploadItemView> {
    q.map_values(|i: UploadQueueItem| i@)
}

pub open spec fn command_views(c: Seq<AppCommand>) -> Seq<CommandView> {
    c.map_values(|x: AppCommand| x@)
}

impl View for App {
    type V = AppView;

    open spec fn view(&self) -> AppView {
        AppView {
            local_cwd: self.local_cwd@,
            local_entries: local_views(self.local_entries@),
            local_selected: self.local_selected,
            local_marks: views(self.local_marks@),
            remote_host: self.remote_host@,
            remote_cwd: self.remote_cwd@,
            remote_entries: remote_views(self.remote_entries@),
            remote_selected: self.remote_selected,
            active_pane: self.active_pane,
            view_mode: self.view_mode,
            input_mode: self.input_mode,
            input_buffer: self.input_buffer@,
            logs: views(self.logs@),
            remote_loading: self.remote_loading,
            transfer_queue: queue_views(self.transfer_queue@),
            transfer_selected: self.transfer_selected,
            transfer_status: status_view(self.transfer_status),
            transferring: self.transferring,
            should_quit: self.should_quit,
            init_step: self.init_step,
            home: opt_string_view(self.home),
            resume: resume_view(self.resume),
            outbox: command_views(self.outbox@),
        }
    }
}

/// A selection that stays inside a list: the first entry, or one that exists.
pub open spec fn selection_ok(selected: usize, len: nat) -> bool {
    selected == 0 || selected < len
}

/// Every host handed to ssh or scp is safe.
pub open spec fn command_safe(c: CommandView) -> bool {
    match c {
        CommandView::ListRemote { host, path } => is_safe_host(host),
        CommandView::StartUpload { paths, host, remote_dir } => is_safe_host(host),
        CommandView::CancelUpload(_) => true,
    }
}

/// What every state of the machine satisfies.
pub open spec fn view_wf(s: AppView) -> bool {
    &&& s.logs.len() <= 8
    &&& selection_ok(s.local_selected, s.local_entries.len())
    &&& selection_ok(s.remote_selected, s.remote_entries.len())
    &&& selection_ok(s.transfer_selected, s.transfer_queue.len())
    &&& forall|i: int| 0 <= i < s.outbox.len() ==> command_safe(#[trigger] s.outbox[i])
    &&& s.local_marks.no_duplicates()
}

impl App {
    /// The well-formedness of the state: that of its view.
    pub open spec fn wf(&self) -> bool {
        view_wf(self@)
    }
}

/// The log after one more message: the last eight messages are kept.
pub open spec fn push_log(logs: Seq<Seq<char>>, m: Seq<char>) -> Seq<Seq<char>> {
    if logs.len() + 1 > 8 {
        logs.push(m).drop_first()
    } else {
        logs.push(m)
    }
}

pub open spec fn spec_log(s: AppView, m: Seq<char>) -> AppView {
    AppView { logs: push_log(s.logs, m), ..s }
}

pub open spec fn flip_pane(p: ActivePane) -> ActivePane {
    match p {
        ActivePane::Local => ActivePane::Remote,
        ActivePane::Remote => ActivePane::Local,
    }
}

pub open spec fn spec_toggle_active_pane(s: AppView) -> AppView {
    AppView { active_pane: flip_pane(s.active_pane), ..s }
}

pub open spec fn spec_toggle_view_mode(s: AppView) -> AppView {
    AppView { view_mode: flip_view(s.view_mode), ..s }
}

pub open spec fn flip_view(v: ViewMode) -> ViewMode {
    match v {
        ViewMode::Browser => ViewMode::Transfers,
        ViewMode::Transfers => ViewMode::Browser,
    }
}

/// A selection moved by `delta` and held inside a list of `len` entries.
pub open spec fn moved_selection(selected: usize, delta: int, len: nat) -> usize {
    if len == 0 {
        0
    } else if selected + delta < 0 {
        0
    } else if selected + delta > len - 1 {
        (len - 1) as usize
    } else {
        (selected + delta) as usize
    }
}

/// A selection held inside a list of `len` entries.
pub open spec fn spec_clamp_selection(selected: usize, len: nat) -> usize {
    if len == 0 {
        0
    } else if selected > len - 1 {
        (len - 1) as usize
    } else {
        selected
    }
}

/// The title of the input line for each input mode.
pub open spec fn spec_input_title(m: InputMode) -> Seq<char> {
    match m {
        InputMode::Normal => ""@,
        InputMode::EditingHost => "Remote host"@,
        InputMode::EditingRemotePath => "Remote path"@,
        InputMode::EditingLocalPath => "Source directory"@,
    }
}

/// The name under which a local path is shown: its file name, or the whole
/// path where it has none.
pub open spec fn spec_display_name(path: Seq<char>) -> Seq<char> {
    match path_file_name(path) {
        Some(n) => n,
        None => path,
    }
}

/// A selection held inside a list.
pub fn clamp_selection(selected: usize, len: usize) -> (r: usize)
    ensures
        r == spec_clamp_selection(selected, len as nat),
{
    if len == 0 {
        0
    } else if selected > len - 1 {
        len - 1
    } else {
        selected
    }
}

/// The name under which a local path is shown.
pub fn display_name(path: &str) -> (r: String)
    ensures
        r@ == spec_display_name(path@),
{
    match file_name(path) {
        Some(n) => n,
        None => string_of(path),
    }
}

pub open spec fn queued_item(path: Seq<char>) -> UploadItemView {
    UploadItemView {
        name: spec_display_name(path),
        status: UploadStatus::Queued,
        bytes_sent: None,
        bytes_total: None,
        elapsed_secs: 0,
        message: None,
    }
}

impl UploadQueueItem {
    /// A queue item for a path that waits its turn.
    pub fn queued(path: &str) -> (r: UploadQueueItem)
        ensures
            r@ == queued_item(path@),
    {
        UploadQueueItem {
            name: display_name(path),
            status: UploadStatus::Queued,
            bytes_sent: None,
            bytes_total: None,
            elapsed_secs: 0,
            message: None,
        }
    }
}

/// The label of a queue item's status.
pub open spec fn spec_status_label(s: UploadStatus) -> Seq<char> {
    match s {
        UploadStatus::Queued => "queued"@,
        UploadStatus::Active => "active"@,
        UploadStatus::Done => "done"@,
        UploadStatus::Failed => "failed"@,
        UploadStatus::Canceled => "canceled"@,
    }
}

/// The label of a queue item's status.
pub fn upload_status_label(status: UploadStatus) -> (r: &'static str)
    ensures
        r@ == spec_status_label(status),
{
    match status {
        UploadStatus::Queued => "queued",
        UploadStatus::Active => "active",
        UploadStatus::Done => "done",
        UploadStatus::Failed => "failed",
        UploadStatus::Canceled => "canceled",
    }
}

/// A queue item after a report of the worker: the reported fields replace
/// the item's, the total size only where one is reported.
pub open spec fn updated_item(
    item: UploadItemView,
    status: UploadStatus,
    bytes_sent: Option<u64>,
    bytes_total: Option<u64>,
    elapsed_secs: u64,
    message: Option<Seq<char>>,
) -> UploadItemView {
    UploadItemView {
        name: item.name,
        status,
        bytes_sent,
        bytes_total: if bytes_total is Some {
            bytes_total
        } else {
            item.bytes_total
        },
        elapsed_secs,
        message,
    }
}

/// The queue after a report of the worker on the item at a 1-based index;
/// an index outside the queue changes nothing.
pub open spec fn spec_update_upload_item(
    s: AppView,
    index: usize,
    status: UploadStatus,
    bytes_sent: Option<u64>,
    bytes_total: Option<u64>,
    elapsed_secs: u64,
    message: Option<Seq<char>>,
) -> AppView {
    let i = if index == 0 {
        0
    } else {
        index - 1
    };
    if i < s.transfer_queue.len() {
        AppView {
            transfer_queue: s.transfer_queue.update(
                i,
                updated_item(
                    s.transfer_queue[i],
                    status,
                    bytes_sent,
                    bytes_total,
                    elapsed_secs,
                    message,
                ),
            ),
            ..s
        }
    } else {
        s
    }
}

/// The local paths that an upload takes: where paths are marked, the
/// marked entries of the listing in listing order, then the marked paths
/// that the listing does not hold (marked in another directory) in the
/// order they were marked; else the selected entry, or none.
pub open spec fn spec_paths_to_upload(s: AppView) -> Seq<Seq<char>> {
    if s.local_marks.len() > 0 {
        marked_paths(s.local_entries, s.local_marks) + unlisted_marks(s.local_marks, s.local_entries)
    } else if s.local_selected < s.local_entries.len() {
        seq![s.local_entries[s.local_selected as int].path]
    } else {
        Seq::empty()
    }
}

/// The paths of the entries whose path is marked, in listing order.
pub open spec fn marked_paths(entries: Seq<LocalEntryView>, marks: Seq<Seq<char>>) -> Seq<Seq<char>>
    decreases entries.len(),
{
    if entries.len() == 0 {
        Seq::empty()
    } else if marks.contains(entries.last().path) {
        marked_paths(entries.drop_last(), marks).push(entries.last().path)
    } else {
        marked_paths(entries.drop_last(), marks)
    }
}

/// Whether some entry of the listing has this path.
pub open spec fn listed(entries: Seq<LocalEntryView>, path: Seq<char>) -> bool {
    exists|i: int| 0 <= i < entries.len() && #[trigger] entries[i].path == path
}

/// The marks that no entry of the listing has, in the order they were marked.
pub open spec fn unlisted_marks(marks: Seq<Seq<char>>, entries: Seq<LocalEntryView>) -> Seq<Seq<char>>
    decreases marks.len(),
{
    if marks.len() == 0 {
        Seq::empty()
    } else if listed(entries, marks.last()) {
        unlisted_marks(marks.drop_last(), entries)
    } else {
        unlisted_marks(marks.drop_last(), entries).push(marks.last())
    }
}

/// Whether some entry of the listing has this path.
pub fn entries_have_path(entries: &Vec<LocalEntry>, path: &str) -> (b: bool)
    ensures
        b == listed(local_views(entries@), path@),
{
    let ghost ev = local_views(entries@);
    let mut i: usize = 0;
    while i < entries.len()
        invariant
            i <= entries@.len(),
            ev == local_views(entries@),
            forall|k: int| 0 <= k < i ==> ev[k].path != path@,
        decreases entries.len() - i,
    {
        if crate::text::str_eq(entries[i].path.as_str(), path) {
            assert(ev[i as int].path == path@);
            return true;
        }
        i = i + 1;
    }
    false
}

impl App {
    /// Whether the browser waits for the answer to a request it made; every
    /// other step takes it only when it does not.
    pub fn awaiting_answer(&self) -> (r: bool)
        ensures
            r == self@.resume is Some,
    {
        self.resume.is_some()
    }
}

impl App {
    /// The title of the input line.
    pub fn input_title(&self) -> (r: &'static str)
        ensures
            r@ == spec_input_title(self@.input_mode),
    {
        match self.input_mode {
            InputMode::Normal => "",
            InputMode::EditingHost => "Remote host",
            InputMode::EditingRemotePath => "Remote path",
            InputMode::EditingLocalPath => "Source directory",
        }
    }

    /// Takes the commands handed out since the last call, oldest first.
    pub fn take_commands(&mut self) -> (r: Vec<AppCommand>)
        requires
            old(self).wf(),
        ensures
            final(self).wf(),
            command_views(r@) == old(self)@.outbox,
            final(self)@ == (AppView { outbox: Seq::empty(), ..old(self)@ }),
    {
        let mut r: Vec<AppCommand> = Vec::new();
        std::mem::swap(&mut r, &mut self.outbox);
        assert(command_views(self.outbox@) =~= Seq::<CommandView>::empty());
        assert(self@ =~= AppView { outbox: Seq::empty(), ..old(self)@ });
        r
    }

    /// Appends a message to the log, which keeps the last eight.
    pub fn log(&mut self, message: String)
        requires
            old(self).wf(),
        ensures
            final(self).wf(),
            final(self)@ == spec_log(old(self)@, message@),
    {
        let ghost old_logs = self.logs@;
        self.logs.push(message);
        if self.logs.len() > 8 {
            self.logs.remove(0);
        }
        proof {
            if old_logs.len() + 1 > 8 {
                assert(views(self.logs@) =~= views(old_logs).push(message@).drop_first());
            } else {
                assert(views(self.logs@) =~= views(old_logs).push(message@));
            }
        }
        assert(self@ =~= spec_log(old(self)@, message@));
    }

    fn log_str(&mut self, message: &str)
        requires
            old(self).wf(),
        ensures
            final(self).wf(),
            final(self)@ == spec_log(old(self)@, message@),
    {
        self.log(string_of(message));
    }

    /// Switches between the local and the remote pane.
    pub fn toggle_active_pane(&mut self)
        requires
            old(self).wf(),
        ensures
            final(self).wf(),
            final(self)@ == spec_toggle_active_pane(old(self)@),
    {
        self.active_pane = match self.active_pane {
            ActivePane::Local => ActivePane::Remote,
            ActivePane::Remote => ActivePane::Local,
        };
        assert(self@ =~= spec_toggle_active_pane(old(self)@));
    }

    /// Switches between the browser and the transfer page.
    pub fn toggle_view_mode(&mut self)
        requires
            old(self).wf(),
        ensures
            final(self).wf(),
            final(self)@ == spec_toggle_view_mode(old(self)@),
    {
        self.view_mode = match self.view_mode {
            ViewMode::Browser => ViewMode::Transfers,
            ViewMode::Transfers => ViewMode::Browser,
        };
        assert(self@ =~= spec_toggle_view_mode(old(self)@));
    }

    /// Moves the selection of the transfer page, held inside the queue.
    pub fn move_transfer_selection(&mut self, delta: isize)
        requires
            old(self).wf(),
        ensures
            final(self).wf(),
            final(self)@ == (AppView {
                transfer_selected: moved_selection(
                    old(self)@.transfer_selected,
                    delta as int,
                    old(self)@.transfer_queue.len(),
                ),
                ..old(self)@
            }),
    {
        let len = self.transfer_queue.len();
        self.transfer_selected = moved(self.transfer_selected, delta, len);
        assert(self@ =~= AppView {
            transfer_selected: moved_selection(
                old(self)@.transfer_selected,
                delta as int,
                old(self)@.transfer_queue.len(),
            ),
            ..old(self)@
        });
    }

    /// Moves the selection of the active pane, held inside its entries.
    pub fn move_selection(&mut self, delta: isize)
        requires
            old(self).wf(),
        ensures
            final(self).wf(),
            final(self)@ == spec_move_selection(old(self)@, delta as int),
    {
        match self.active_pane {
            ActivePane::Local => {
                let len = self.local_entries.len();
                self.local_selected = moved(self.local_selected, delta, len);
            },
            ActivePane::Remote => {
                let len = self.remote_entries.len();
                self.remote_selected = moved(self.remote_selected, delta, len);
            },
        }
        assert(self@ =~= spec_move_selection(old(self)@, delta as int));
    }

    fn begin_edit_host(&mut self)
        requires
            old(self).wf(),
        ensures
            final(self).wf(),
            final(self)@ == spec_begin_edit_host(old(self)@),
    {
        self.input_mode = InputMode::EditingHost;
        self.input_buffer = self.remote_host.clone();
        assert(self@ =~= spec_begin_edit_host(old(self)@));
    }

    fn begin_edit_remote_path(&mut self)
        requires
            old(self).wf(),
        ensures
            final(self).wf(),
            final(self)@ == spec_begin_edit_remote_path(old(self)@),
    {
        self.input_mode = InputMode::EditingRemotePath;
        self.input_buffer = self.remote_cwd.clone();
        assert(self@ =~= spec_begin_edit_remote_path(old(self)@));
    }

    fn begin_init(&mut self)
        requires
            old(self).wf(),
        ensures
            final(self).wf(),
            final(self)@ == spec_begin_init(old(self)@),
    {
        self.init_step = Some(InitStep::RemoteHost);
        self.input_mode = InputMode::EditingHost;
        self.input_buffer = self.remote_host.clone();
        self.log_str("Init: verify the remote SSH host.");
    }

    fn begin_init_remote_path(&mut self)
        requires
            old(self).wf(),
        ensures
            final(self).wf(),
            final(self)@ == spec_begin_init_remote_path(old(self)@),
    {
        self.init_step = Some(InitStep::RemotePath);
        self.input_mode = InputMode::EditingRemotePath;
        self.input_buffer = self.remote_cwd.clone();
        self.log_str("Init: verify the remote media path.");
    }

    fn begin_init_local_path(&mut self)
        requires
            old(self).wf(),
        ensures
            final(self).wf(),
            final(self)@ == spec_begin_init_local_path(old(self)@),
    {
        self.init_step = Some(InitStep::LocalPath);
        self.input_mode = InputMode::EditingLocalPath;
        self.input_buffer = self.local_cwd.clone();
        self.log_str("Init: verify the default local source directory.");
    }

    /// Applies a report of the worker to the queue item at a 1-based index.
    pub fn update_upload_item(
        &mut self,
        index: usize,
        status: UploadStatus,
        bytes_sent: Option<u64>,
        bytes_total: Option<u64>,
        elapsed_secs: u64,
        message: Option<String>,
    )
        requires
            old(self).wf(),
        ensures
            final(self).wf(),
            final(self)@ == spec_update_upload_item(
                old(self)@,
                index,
                status,
                bytes_sent,
                bytes_total,
                elapsed_secs,
                opt_string_view(message),
            ),
    {
        let i = if index == 0 {
            0
        } else {
            index - 1
        };
        if i >= self.transfer_queue.len() {
            return;
        }
        let ghost q = self.transfer_queue@;
        let old_total = self.transfer_queue[i].bytes_total;
        let name = self.transfer_queue[i].name.clone();
        let item = UploadQueueItem {
            name,
            status,
            bytes_sent,
            bytes_total: if bytes_total.is_some() {
                bytes_total
            } else {
                old_total
            },
            elapsed_secs,
            message,
        };
        self.transfer_queue.set(i, item);
        assert(queue_views(self.transfer_queue@) =~= queue_views(q).update(
            i as int,
            updated_item(
                queue_views(q)[i as int],
                status,
                bytes_sent,
                bytes_total,
                elapsed_secs,
                opt_string_view(message),
            ),
        ));
        assert(self@ =~= spec_update_upload_item(
            old(self)@,
            index,
            status,
            bytes_sent,
            bytes_total,
            elapsed_secs,
            opt_string_view(message),
        ));
    }

    /// The local paths that an upload takes.
    pub fn paths_to_upload(&self) -> (r: Vec<String>)
        requires
            self.wf(),
        ensures
            views(r@) == spec_paths_to_upload(self@),
    {
        if self.local_marks.len() > 0 {
            let ghost ev = local_views(self.local_entries@);
            let ghost marks = views(self.local_marks@);
            let mut r: Vec<String> = Vec::new();
            let mut i: usize = 0;
            while i < self.local_entries.len()
                invariant
                    i <= self.local_entries@.len(),
                    ev == local_views(self.local_entries@),
                    marks == views(self.local_marks@),
                    views(r@) == marked_paths(ev.subrange(0, i as int), marks),
                decreases self.local_entries.len() - i,
            {
                let entry = &self.local_entries[i];
                let ghost before = views(r@);
                let marked = crate::local::has_path(&self.local_marks, entry.path.as_str());
                proof {
                    let sub = ev.subrange(0, i + 1);
                    assert(sub.drop_last() =~= ev.subrange(0, i as int));
                    assert(sub.last() == entry@);
                }
                if marked {
                    r.push(entry.path.clone());
                    assert(views(r@) =~= before.push(entry.path@));
                }
                i = i + 1;
            }
            assert(ev.subrange(0, i as int) =~= ev);
            let ghost head = views(r@);
            let mut j: usize = 0;
            while j < self.local_marks.len()
                invariant
                    j <= self.local_marks@.len(),
                    ev == local_views(self.local_entries@),
                    marks == views(self.local_marks@),
                    views(r@) == head + unlisted_marks(marks.subrange(0, j as int), ev),
                decreases self.local_marks.len() - j,
            {
                let ghost before = views(r@);
                let found = entries_have_path(&self.local_entries, self.local_marks[j].as_str());
                proof {
                    let sub = marks.subrange(0, j + 1);
                    assert(sub.drop_last() =~= marks.subrange(0, j as int));
                    assert(sub.last() == marks[j as int]);
                }
                if !found {
                    r.push(self.local_marks[j].clone());
                    assert(views(r@) =~= before.push(marks[j as int]));
                }
                j = j + 1;
            }
            assert(marks.subrange(0, j as int) =~= marks);
            r
        } else {
            let mut r: Vec<String> = Vec::new();
            if self.local_selected < self.local_entries.len() {
                r.push(self.local_entries[self.local_selected].path.clone());
                assert(views(r@) =~= seq![self@.local_entries[self.local_selected as int].path]);
            } else {
                assert(views(r@) =~= Seq::<Seq<char>>::empty());
            }
            r
        }
    }
}

fn moved(selected: usize, delta: isize, len: usize) -> (r: usize)
    ensures
        r == moved_selection(selected, delta as int, len as nat),
{
    if len == 0 {
        return 0;
    }
    let target: i128 = selected as i128 + delta as i128;
    if target < 0 {
        0
    } else if target > (len - 1) as i128 {
        len - 1
    } else {
        target as usize
    }
}

pub open spec fn spec_move_selection(s: AppView, delta: int) -> AppView {
    match s.active_pane {
        ActivePane::Local => AppView {
            local_selected: moved_selection(s.local_selected, delta, s.local_entries.len()),
            ..s
        },
        ActivePane::Remote => AppView {
            remote_selected: moved_selection(s.remote_selected, delta, s.remote_entries.len()),
            ..s
        },
    }
}

pub open spec fn spec_begin_edit_host(s: AppView) -> AppView {
    AppView { input_mode: InputMode::EditingHost, input_buffer: s.remote_host, ..s }
}

pub open spec fn spec_begin_edit_remote_path(s: AppView) -> AppView {
    AppView { input_mode: InputMode::EditingRemotePath, input_buffer: s.remote_cwd, ..s }
}

pub open spec fn spec_begin_init(s: AppView) -> AppView {
    spec_log(
        AppView {
            init_step: Some(InitStep::RemoteHost),
            input_mode: InputMode::EditingHost,
            input_buffer: s.remote_host,
            ..s
        },
        "Init: verify the remote SSH host."@,
    )
}

pub open spec fn spec_begin_init_remote_path(s: AppView) -> AppView {
    spec_log(
        AppView {
            init_step: Some(InitStep::RemotePath),
            input_mode: InputMode::EditingRemotePath,
            input_buffer: s.remote_cwd,
            ..s
        },
        "Init: verify the remote media path."@,
    )
}

pub open spec fn spec_begin_init_local_path(s: AppView) -> AppView {
    spec_log(
        AppView {
            init_step: Some(InitStep::LocalPath),
            input_mode: InputMode::EditingLocalPath,
            input_buffer: s.local_cwd,
            ..s
        },
        "Init: verify the default local source directory."@,
    )
}

/// A state together with the request it waits on, if any.
pub type Step = (AppView, Option<RequestView>);

/// Asks for the remote directory to be listed, once the host is safe; a
/// listing under way, or an unsafe host, stops it with a message.
pub open spec fn spec_refresh_remote(s: AppView) -> AppView {
    if s.remote_loading {
        spec_log(s, "Remote refresh already running."@)
    } else {
        match spec_sanitize_host(s.remote_host) {
            Err(e) => spec_log(
                spec_begin_edit_host(
                    AppView { remote_entries: Seq::empty(), remote_selected: 0, ..s },
                ),
                "Invalid remote host: "@ + error_message(e),
            ),
            Ok(h) => spec_log(
                AppView {
                    remote_host: h,
                    remote_loading: true,
                    outbox: s.outbox.push(CommandView::ListRemote { host: h, path: s.remote_cwd }),
                    ..s
                },
                "Loading remote "@ + h + ":"@ + s.remote_cwd,
            ),
        }
    }
}

/// Asks for the local directory to be read, and notes what comes after.
pub open spec fn spec_refresh_local(s: AppView, next: AfterRead) -> Step {
    (
        AppView { resume: Some(ResumeView::AfterLocalRead(next)), ..s },
        Some(RequestView::ReadLocalDir(s.local_cwd)),
    )
}

pub open spec fn spec_open_local_selected(s: AppView) -> Step {
    if s.local_selected < s.local_entries.len() && s.local_entries[s.local_selected as int].is_dir {
        spec_refresh_local(
            AppView {
                local_cwd: s.local_entries[s.local_selected as int].path,
                local_selected: 0,
                ..s
            },
            AfterRead::Nothing,
        )
    } else {
        (s, None)
    }
}

pub open spec fn spec_open_remote_selected(s: AppView) -> AppView {
    if s.remote_selected < s.remote_entries.len()
        && s.remote_entries[s.remote_selected as int].is_dir {
        spec_refresh_remote(
            AppView {
                remote_cwd: s.remote_entries[s.remote_selected as int].path,
                remote_selected: 0,
                ..s
            },
        )
    } else {
        s
    }
}

pub open spec fn spec_open_selected(s: AppView) -> Step {
    match s.active_pane {
        ActivePane::Local => spec_open_local_selected(s),
        ActivePane::Remote => (spec_open_remote_selected(s), None),
    }
}

pub open spec fn spec_open_parent(s: AppView) -> Step {
    match s.active_pane {
        ActivePane::Local => match path_parent(s.local_cwd) {
            Some(p) => spec_refresh_local(
                AppView { local_cwd: p, local_selected: 0, ..s },
                AfterRead::Nothing,
            ),
            None => (s, None),
        },
        ActivePane::Remote => (
            spec_refresh_remote(
                AppView { remote_cwd: spec_parent_path(s.remote_cwd), remote_selected: 0, ..s },
            ),
            None,
        ),
    }
}

/// The marks with one path marked (last) if it was not, unmarked if it was.
pub open spec fn toggled(marks: Seq<Seq<char>>, path: Seq<char>) -> Seq<Seq<char>> {
    if marks.contains(path) {
        marks.remove(marks.index_of(path))
    } else {
        marks.push(path)
    }
}

pub open spec fn spec_toggle_mark(s: AppView) -> Step {
    if s.active_pane != ActivePane::Local || s.local_selected >= s.local_entries.len() {
        (s, None)
    } else {
        spec_refresh_local(
            AppView {
                local_marks: toggled(s.local_marks, s.local_entries[s.local_selected as int].path),
                ..s
            },
            AfterRead::Nothing,
        )
    }
}

pub open spec fn spec_refresh_active(s: AppView) -> Step {
    match s.active_pane {
        ActivePane::Local => spec_refresh_local(s, AfterRead::Nothing),
        ActivePane::Remote => (spec_refresh_remote(s), None),
    }
}

/// Starts uploading the marked entries, or the selected one: the host is
/// checked first, the queue replaced by the new items, and the transfer page
/// shown. A transfer under way, a missing or unsafe host, or nothing to
/// upload stops it with a message.
pub open spec fn spec_start_upload(s: AppView) -> AppView {
    if s.transferring {
        spec_log(s, "A transfer is already running."@)
    } else if trim_ws(s.remote_host).len() == 0 {
        spec_log(spec_begin_edit_host(s), "Set a remote host before uploading."@)
    } else {
        match spec_sanitize_host(s.remote_host) {
            Err(e) => spec_log(spec_begin_edit_host(s), "Invalid remote host: "@ + error_message(e)),
            Ok(h) => {
                let s1 = AppView { remote_host: h, ..s };
                let paths = spec_paths_to_upload(s1);
                if paths.len() == 0 {
                    spec_log(s1, "Select or mark at least one local file first."@)
                } else {
                    let s2 = spec_log(
                        s1,
                        "Queued "@ + decimal(paths.len()) + " item(s) for upload to "@ + h + ":"@
                            + s.remote_cwd,
                    );
                    AppView {
                        transfer_queue: paths.map_values(|p: Seq<char>| queued_item(p)),
                        transfer_selected: 0,
                        transfer_status: None,
                        view_mode: ViewMode::Transfers,
                        outbox: s2.outbox.push(
                            CommandView::StartUpload { paths, host: h, remote_dir: s.remote_cwd },
                        ),
                        transferring: true,
                        ..s2
                    }
                }
            },
        }
    }
}

/// Cancels the selected queue item if it still waits: it is marked canceled
/// and the worker told to skip it. Any other item, and an active one, is left
/// as it is, with a message.
pub open spec fn spec_cancel_selected_transfer(s: AppView) -> AppView {
    if s.transfer_selected >= s.transfer_queue.len() {
        spec_log(s, "No queued upload selected."@)
    } else if s.transfer_queue[s.transfer_selected as int].status != UploadStatus::Queued {
        spec_log(s, "Only queued uploads can be canceled."@)
    } else {
        let i = s.transfer_selected as int;
        let item = s.transfer_queue[i];
        let index = (s.transfer_selected + 1) as usize;
        let s1 = AppView {
            transfer_queue: s.transfer_queue.update(
                i,
                UploadItemView {
                    status: UploadStatus::Canceled,
                    message: Some("canceled"@),
                    ..item
                },
            ),
            outbox: if s.transferring {
                s.outbox.push(CommandView::CancelUpload(index))
            } else {
                s.outbox
            },
            ..s
        };
        spec_log(s1, "Canceled queued item "@ + decimal(index as nat) + ": "@ + item.name)
    }
}

impl App {
    fn refresh_remote(&mut self)
        requires
            old(self).wf(),
        ensures
            final(self).wf(),
            final(self)@ == spec_refresh_remote(old(self)@),
    {
        if self.remote_loading {
            self.log_str("Remote refresh already running.");
            return;
        }
        match sanitize_host(self.remote_host.as_str()) {
            Err(e) => {
                self.remote_selected = 0;
                self.remote_entries = Vec::new();
                assert(self@ =~= AppView {
                    remote_entries: Seq::empty(),
                    remote_selected: 0,
                    ..old(self)@
                });
                self.begin_edit_host();
                let mut m = string_of("Invalid remote host: ");
                let t = e.message();
                m.append(t.as_str());
                self.log(m);
            },
            Ok(h) => {
                proof {
                    law_sanitize_host_idempotent(old(self)@.remote_host);
                }
                self.remote_host = h.clone();
                self.remote_loading = true;
                let ghost before = self.outbox@;
                self.outbox.push(
                    AppCommand::ListRemote { host: h.clone(), path: self.remote_cwd.clone() },
                );
                assert(command_views(self.outbox@) =~= command_views(before).push(
                    CommandView::ListRemote { host: h@, path: self.remote_cwd@ },
                ));
                assert(self@ =~= AppView {
                    remote_host: h@,
                    remote_loading: true,
                    outbox: old(self)@.outbox.push(
                        CommandView::ListRemote { host: h@, path: old(self)@.remote_cwd },
                    ),
                    ..old(self)@
                });
                let mut m = string_of("Loading remote ");
                m.append(h.as_str());
                m.append(":");
                m.append(self.remote_cwd.as_str());
                self.log(m);
            },
        }
    }

    fn refresh_local(&mut self, next: AfterRead) -> (r: Request)
        requires
            old(self).wf(),
        ensures
            final(self).wf(),
            (final(self)@, Some(r@)) == spec_refresh_local(old(self)@, next),
    {
        self.resume = Some(Resume::AfterLocalRead(next));
        assert(self@ =~= spec_refresh_local(old(self)@, next).0);
        Request::ReadLocalDir { path: self.local_cwd.clone() }
    }

    fn open_local_selected(&mut self) -> (r: Option<Request>)
        requires
            old(self).wf(),
        ensures
            final(self).wf(),
            (final(self)@, request_view(r)) == spec_open_local_selected(old(self)@),
    {
        if self.local_selected >= self.local_entries.len() {
            return None;
        }
        let ghost ev = local_views(self.local_entries@);
        assert(ev[self.local_selected as int] == self.local_entries@[self.local_selected as int]@);
        if !self.local_entries[self.local_selected].is_dir {
            return None;
        }
        let path = self.local_entries[self.local_selected].path.clone();
        self.local_cwd = path;
        self.local_selected = 0;
        Some(self.refresh_local(AfterRead::Nothing))
    }

    fn open_remote_selected(&mut self)
        requires
            old(self).wf(),
        ensures
            final(self).wf(),
            final(self)@ == spec_open_remote_selected(old(self)@),
    {
        if self.remote_selected >= self.remote_entries.len() {
            return;
        }
        let ghost ev = remote_views(self.remote_entries@);
        assert(ev[self.remote_selected as int] == self.remote_entries@[self.remote_selected as int]@);
        if !self.remote_entries[self.remote_selected].is_dir {
            return;
        }
        let path = self.remote_entries[self.remote_selected].path.clone();
        self.remote_cwd = path;
        self.remote_selected = 0;
        self.refresh_remote();
    }

    /// Opens the selected entry of the active pane if it is a directory.
    pub fn open_selected(&mut self) -> (r: Option<Request>)
        requires
            old(self).wf(),
            old(self)@.resume is None,
        ensures
            final(self).wf(),
            (final(self)@, request_view(r)) == spec_open_selected(old(self)@),
    {
        match self.active_pane {
            ActivePane::Local => self.open_local_selected(),
            ActivePane::Remote => {
                self.open_remote_selected();
                None
            },
        }
    }

    /// Goes to the parent directory in the active pane.
    pub fn open_parent(&mut self) -> (r: Option<Request>)
        requires
            old(self).wf(),
            old(self)@.resume is None,
        ensures
            final(self).wf(),
            (final(self)@, request_view(r)) == spec_open_parent(old(self)@),
    {
        match self.active_pane {
            ActivePane::Local => {
                match parent(self.local_cwd.as_str()) {
                    Some(p) => {
                        self.local_cwd = p;
                        self.local_selected = 0;
                        assert(self@ =~= AppView {
                            local_cwd: self.local_cwd@,
                            local_selected: 0,
                            ..old(self)@
                        });
                        Some(self.refresh_local(AfterRead::Nothing))
                    },
                    None => None,
                }
            },
            ActivePane::Remote => {
                self.remote_cwd = parent_path(self.remote_cwd.as_str());
                self.remote_selected = 0;
                self.refresh_remote();
                None
            },
        }
    }

    /// Marks the selected local entry for upload, or unmarks it.
    pub fn toggle_mark(&mut self) -> (r: Option<Request>)
        requires
            old(self).wf(),
            old(self)@.resume is None,
        ensures
            final(self).wf(),
            (final(self)@, request_view(r)) == spec_toggle_mark(old(self)@),
    {
        if self.active_pane != ActivePane::Local {
            return None;
        }
        if self.local_selected >= self.local_entries.len() {
            return None;
        }
        let ghost ev = local_views(self.local_entries@);
        assert(ev[self.local_selected as int] == self.local_entries@[self.local_selected as int]@);
        let path = self.local_entries[self.local_selected].path.clone();
        let ghost marks = views(self.local_marks@);
        let mut found: Option<usize> = None;
        let mut i: usize = 0;
        while i < self.local_marks.len()
            invariant
                i <= self.local_marks@.len(),
                marks == views(self.local_marks@),
                found is None ==> forall|k: int| 0 <= k < i ==> marks[k] != path@,
                found matches Some(k) ==> k < marks.len() && marks[k as int] == path@,
            decreases self.local_marks.len() - i,
        {
            if found.is_none() && crate::text::str_eq(self.local_marks[i].as_str(), path.as_str()) {
                found = Some(i);
            }
            i = i + 1;
        }
        match found {
            Some(k) => {
                self.local_marks.remove(k);
                proof {
                    assert(views(self.local_marks@) =~= marks.remove(k as int));
                    assert(marks.contains(path@));
                    let m = marks.index_of(path@);
                    assert(marks[m] == path@);
                    assert(m == k);
                    lemma_remove_keeps_distinct(marks, k as int);
                }
            },
            None => {
                self.local_marks.push(path);
                proof {
                    assert(views(self.local_marks@) =~= marks.push(path@));
                    assert(!marks.contains(path@));
                    lemma_push_keeps_distinct(marks, path@);
                }
            },
        }
        assert(self@ =~= AppView {
            local_marks: toggled(old(self)@.local_marks, old(self)@.local_entries[old(
                self,
            )@.local_selected as int].path),
            ..old(self)@
        });
        Some(self.refresh_local(AfterRead::Nothing))
    }

    /// Reads the active pane again.
    pub fn refresh_active(&mut self) -> (r: Option<Request>)
        requires
            old(self).wf(),
            old(self)@.resume is None,
        ensures
            final(self).wf(),
            (final(self)@, request_view(r)) == spec_refresh_active(old(self)@),
    {
        match self.active_pane {
            ActivePane::Local => Some(self.refresh_local(AfterRead::Nothing)),
            ActivePane::Remote => {
                self.refresh_remote();
                None
            },
        }
    }
}

/// The input line closed after a commit, unless the commit moved on to
/// another input.
pub open spec fn spec_commit_tail(s: AppView, original: InputMode) -> AppView {
    if s.input_mode == original {
        AppView { input_mode: InputMode::Normal, input_buffer: Seq::empty(), ..s }
    } else {
        s
    }
}

/// Accepts the input line: a host or remote path is checked and taken (the
/// setup moving on to its next step, the remote side listed otherwise), a
/// source directory waits on the check that it exists. A refused value
/// leaves the input line open, with a message.
pub open spec fn spec_commit_input(s: AppView) -> Step {
    let value = trim_ws(s.input_buffer);
    match s.input_mode {
        InputMode::EditingHost => match spec_sanitize_host(value) {
            Err(e) => (spec_log(s, "Invalid remote host: "@ + error_message(e)), None),
            Ok(h) => {
                let s1 = AppView { remote_host: h, remote_selected: 0, ..s };
                let s2 = if s.init_step == Some(InitStep::RemoteHost) {
                    spec_begin_init_remote_path(s1)
                } else {
                    spec_refresh_remote(s1)
                };
                (spec_commit_tail(s2, InputMode::EditingHost), None)
            },
        },
        InputMode::EditingRemotePath => match spec_sanitize_remote_path(value) {
            Err(e) => (spec_log(s, "Invalid remote path: "@ + error_message(e)), None),
            Ok(p) => {
                let s1 = AppView { remote_cwd: p, remote_selected: 0, ..s };
                let s2 = if s.init_step == Some(InitStep::RemotePath) {
                    spec_begin_init_local_path(s1)
                } else {
                    spec_refresh_remote(s1)
                };
                (spec_commit_tail(s2, InputMode::EditingRemotePath), None)
            },
        },
        InputMode::EditingLocalPath => {
            let d = spec_local_dir_candidate(value, s.home);
            (
                AppView { resume: Some(ResumeView::AfterDirCheck(value)), ..s },
                Some(RequestView::CheckLocalDir(d)),
            )
        },
        InputMode::Normal => (spec_commit_tail(s, InputMode::Normal), None),
    }
}

/// The answer to the check of a typed source directory: an existing one is
/// opened, a missing one refused with a message.
pub open spec fn spec_local_dir_checked(s: AppView, is_dir: bool) -> Step {
    match s.resume {
        Some(ResumeView::AfterDirCheck(value)) => {
            let s0 = AppView { resume: None, ..s };
            let d = spec_local_dir_candidate(value, s.home);
            if is_dir {
                spec_refresh_local(
                    AppView { local_cwd: d, local_selected: 0, ..s0 },
                    AfterRead::CommitLocal,
                )
            } else {
                (
                    spec_log(
                        s0,
                        "Invalid source directory: "@ + "source directory does not exist: "@ + d,
                    ),
                    None,
                )
            }
        },
        _ => (s, None),
    }
}

/// Saves the settings of the first-run setup.
pub open spec fn spec_finish_init(s: AppView) -> Step {
    (
        AppView { resume: Some(ResumeView::AfterSave), ..s },
        Some(
            RequestView::SaveConfig {
                remote_host: s.remote_host,
                remote_path: s.remote_cwd,
                local_dir: s.local_cwd,
            },
        ),
    )
}

/// What follows a read of the local directory.
pub open spec fn spec_after_read(s: AppView, next: AfterRead) -> Step {
    match next {
        AfterRead::Nothing => (s, None),
        AfterRead::CommitLocal => if s.init_step == Some(InitStep::LocalPath) {
            spec_finish_init(s)
        } else {
            (spec_commit_tail(s, InputMode::EditingLocalPath), None)
        },
        AfterRead::TransferComplete => (
            spec_log(spec_refresh_remote(s), "Transfer complete."@),
            None,
        ),
    }
}

/// The answer to a read of the local directory: the entries in listing order
/// (the selection held inside them), or the error as a message; then what
/// was waiting on the read.
pub open spec fn spec_local_loaded(s: AppView, loaded: Result<Seq<LocalEntryView>, Seq<char>>) -> Step {
    match s.resume {
        Some(ResumeView::AfterLocalRead(next)) => {
            let s0 = AppView { resume: None, ..s };
            let s1 = match loaded {
                Ok(es) => AppView {
                    local_entries: es,
                    local_selected: spec_clamp_selection(s0.local_selected, es.len()),
                    ..s0
                },
                Err(e) => spec_log(s0, "Local refresh failed: "@ + e),
            };
            spec_after_read(s1, next)
        },
        _ => (s, None),
    }
}

/// The answer to the save of the settings: on success the setup ends and
/// the remote side is listed; on failure the setup stays, with a message.
pub open spec fn spec_config_saved(s: AppView, saved: Result<Seq<char>, Seq<char>>) -> AppView {
    let s0 = AppView { resume: None, ..s };
    match saved {
        Ok(path) => {
            let s1 = spec_log(s0, "Init saved to "@ + path + "."@);
            let s2 = AppView {
                init_step: None,
                input_mode: InputMode::Normal,
                input_buffer: Seq::empty(),
                ..s1
            };
            spec_commit_tail(spec_refresh_remote(s2), InputMode::EditingLocalPath)
        },
        Err(e) => spec_commit_tail(
            spec_log(s0, "Init save failed: "@ + e),
            InputMode::EditingLocalPath,
        ),
    }
}

pub open spec fn spec_handle_input_key(s: AppView, k: KeyPress) -> Step {
    match k.code {
        Key::Esc => {
            let s1 = if s.init_step is Some {
                spec_log(
                    AppView { init_step: None, ..s },
                    "Init cancelled; current settings were not saved."@,
                )
            } else {
                s
            };
            (AppView { input_mode: InputMode::Normal, input_buffer: Seq::empty(), ..s1 }, None)
        },
        Key::Enter => spec_commit_input(s),
        Key::Backspace => (
            AppView {
                input_buffer: if s.input_buffer.len() > 0 {
                    s.input_buffer.drop_last()
                } else {
                    s.input_buffer
                },
                ..s
            },
            None,
        ),
        Key::Char(c) => if k.ctrl {
            (s, None)
        } else {
            (AppView { input_buffer: s.input_buffer.push(c), ..s }, None)
        },
        _ => (s, None),
    }
}

pub open spec fn spec_handle_transfer_key(s: AppView, k: KeyPress) -> AppView {
    if k.code == Key::Up || k.code == Key::Char('k') {
        AppView {
            transfer_selected: moved_selection(s.transfer_selected, -1, s.transfer_queue.len()),
            ..s
        }
    } else if k.code == Key::Down || k.code == Key::Char('j') {
        AppView {
            transfer_selected: moved_selection(s.transfer_selected, 1, s.transfer_queue.len()),
            ..s
        }
    } else if k.code == Key::Char('x') || k.code == Key::Char('c') {
        spec_cancel_selected_transfer(s)
    } else {
        s
    }
}

pub open spec fn spec_handle_normal_key(s: AppView, k: KeyPress) -> Step {
    let c = k.code;
    if c == Key::Char('q') || c == Key::Esc {
        (AppView { should_quit: true, ..s }, None)
    } else if c == Key::Char('t') {
        (AppView { view_mode: flip_view(s.view_mode), ..s }, None)
    } else if s.view_mode == ViewMode::Transfers {
        (spec_handle_transfer_key(s, k), None)
    } else if c == Key::Tab {
        (AppView { active_pane: flip_pane(s.active_pane), ..s }, None)
    } else if c == Key::Up || c == Key::Char('k') {
        (spec_move_selection(s, -1), None)
    } else if c == Key::Down || c == Key::Char('j') {
        (spec_move_selection(s, 1), None)
    } else if c == Key::Enter {
        spec_open_selected(s)
    } else if c == Key::Backspace || c == Key::Left || c == Key::Char('h') {
        spec_open_parent(s)
    } else if c == Key::Char(' ') {
        spec_toggle_mark(s)
    } else if c == Key::Char('u') {
        (spec_start_upload(s), None)
    } else if c == Key::Char('r') {
        spec_refresh_active(s)
    } else if c == Key::Char('o') {
        (spec_begin_edit_host(s), None)
    } else if c == Key::Char('g') {
        (spec_begin_edit_remote_path(s), None)
    } else {
        (s, None)
    }
}

/// One key press: Control-C quits from anywhere; otherwise the key goes to
/// the input line while one is open, to the browser or transfer page else.
pub open spec fn spec_handle_key(s: AppView, k: KeyPress) -> Step {
    if k.ctrl && k.code == Key::Char('c') {
        (AppView { should_quit: true, ..s }, None)
    } else if s.input_mode == InputMode::Normal {
        spec_handle_normal_key(s, k)
    } else {
        spec_handle_input_key(s, k)
    }
}

impl App {
    /// Starts uploading the marked entries, or the selected one.
    pub fn start_upload(&mut self)
        requires
            old(self).wf(),
        ensures
            final(self).wf(),
            final(self)@ == spec_start_upload(old(self)@),
    {
        if self.transferring {
            self.log_str("A transfer is already running.");
            return;
        }
        let t = trim(self.remote_host.as_str());
        if t.as_str().unicode_len() == 0 {
            self.begin_edit_host();
            self.log_str("Set a remote host before uploading.");
            return;
        }
        match sanitize_host(self.remote_host.as_str()) {
            Err(e) => {
                self.begin_edit_host();
                let mut m = string_of("Invalid remote host: ");
                let t = e.message();
                m.append(t.as_str());
                self.log(m);
                return;
            },
            Ok(h) => {
                proof {
                    law_sanitize_host_idempotent(old(self)@.remote_host);
                }
                self.remote_host = h;
            },
        }
        let ghost s1 = self@;
        assert(s1 =~= AppView { remote_host: self.remote_host@, ..old(self)@ });
        let paths = self.paths_to_upload();
        if paths.len() == 0 {
            self.log_str("Select or mark at least one local file first.");
            return;
        }
        let mut m = string_of("Queued ");
        let count = usize_to_string(paths.len());
        m.append(count.as_str());
        m.append(" item(s) for upload to ");
        m.append(self.remote_host.as_str());
        m.append(":");
        m.append(self.remote_cwd.as_str());
        self.log(m);
        let mut queue: Vec<UploadQueueItem> = Vec::new();
        let mut i: usize = 0;
        while i < paths.len()
            invariant
                i <= paths@.len(),
                queue@.len() == i,
                forall|k: int| 0 <= k < i ==> queue@[k]@ == queued_item(paths@[k]@),
            decreases paths.len() - i,
        {
            queue.push(UploadQueueItem::queued(paths[i].as_str()));
            i = i + 1;
        }
        proof {
            assert(queue_views(queue@) =~= views(paths@).map_values(|p: Seq<char>| queued_item(p)));
        }
        self.transfer_queue = queue;
        self.transfer_selected = 0;
        self.transfer_status = None;
        self.view_mode = ViewMode::Transfers;
        let ghost before = self.outbox@;
        let host = self.remote_host.clone();
        let dir = self.remote_cwd.clone();
        self.outbox.push(AppCommand::StartUpload { paths, host, remote_dir: dir });
        self.transferring = true;
        proof {
            assert(command_views(self.outbox@) =~= command_views(before).push(
                CommandView::StartUpload {
                    paths: spec_paths_to_upload(s1),
                    host: s1.remote_host,
                    remote_dir: s1.remote_cwd,
                },
            ));
        }
        assert(self@ =~= spec_start_upload(old(self)@));
    }

    /// Cancels the selected queue item if it still waits its turn.
    pub fn cancel_selected_transfer(&mut self)
        requires
            old(self).wf(),
        ensures
            final(self).wf(),
            final(self)@ == spec_cancel_selected_transfer(old(self)@),
    {
        if self.transfer_selected >= self.transfer_queue.len() {
            self.log_str("No queued upload selected.");
            return;
        }
        let i = self.transfer_selected;
        assert(queue_views(self.transfer_queue@)[i as int] == self.transfer_queue@[i as int]@);
        if self.transfer_queue[i].status != UploadStatus::Queued {
            self.log_str("Only queued uploads can be canceled.");
            return;
        }
        let ghost q = self.transfer_queue@;
        let name = self.transfer_queue[i].name.clone();
        let item = UploadQueueItem {
            name: name.clone(),
            status: UploadStatus::Canceled,
            bytes_sent: self.transfer_queue[i].bytes_sent,
            bytes_total: self.transfer_queue[i].bytes_total,
            elapsed_secs: self.transfer_queue[i].elapsed_secs,
            message: Some(string_of("canceled")),
        };
        self.transfer_queue.set(i, item);
        let index = i + 1;
        let ghost before = self.outbox@;
        if self.transferring {
            self.outbox.push(AppCommand::CancelUpload(index));
            assert(command_views(self.outbox@) =~= command_views(before).push(
                CommandView::CancelUpload(index),
            ));
        }
        proof {
            assert(queue_views(self.transfer_queue@) =~= queue_views(q).update(
                i as int,
                UploadItemView {
                    status: UploadStatus::Canceled,
                    message: Some("canceled"@),
                    ..queue_views(q)[i as int]
                },
            ));
        }
        let mut m = string_of("Canceled queued item ");
        let n = usize_to_string(index);
        m.append(n.as_str());
        m.append(": ");
        m.append(name.as_str());
        self.log(m);
        assert(self@ =~= spec_cancel_selected_transfer(old(self)@));
    }

    fn commit_tail(&mut self, original: InputMode)
        requires
            old(self).wf(),
        ensures
            final(self).wf(),
            final(self)@ == spec_commit_tail(old(self)@, original),
    {
        if self.input_mode == original {
            self.input_mode = InputMode::Normal;
            self.input_buffer = String::new();
        }
        assert(self@ =~= spec_commit_tail(old(self)@, original));
    }

    fn init_step_is(&self, step: InitStep) -> (b: bool)
        ensures
            b == (self@.init_step == Some(step)),
    {
        match self.init_step {
            Some(s) => s == step,
            None => false,
        }
    }

    fn commit_input(&mut self) -> (r: Option<Request>)
        requires
            old(self).wf(),
            old(self)@.resume is None,
        ensures
            final(self).wf(),
            (final(self)@, request_view(r)) == spec_commit_input(old(self)@),
    {
        let value = trim(self.input_buffer.as_str());
        match self.input_mode {
            InputMode::EditingHost => {
                match sanitize_host(value.as_str()) {
                    Err(e) => {
                        let mut m = string_of("Invalid remote host: ");
                        let t = e.message();
                        m.append(t.as_str());
                        self.log(m);
                        None
                    },
                    Ok(h) => {
                        self.remote_host = h;
                        self.remote_selected = 0;
                        if self.init_step_is(InitStep::RemoteHost) {
                            self.begin_init_remote_path();
                        } else {
                            self.refresh_remote();
                        }
                        self.commit_tail(InputMode::EditingHost);
                        None
                    },
                }
            },
            InputMode::EditingRemotePath => {
                match sanitize_remote_path(value.as_str()) {
                    Err(e) => {
                        let mut m = string_of("Invalid remote path: ");
                        let t = e.message();
                        m.append(t.as_str());
                        self.log(m);
                        None
                    },
                    Ok(p) => {
                        self.remote_cwd = p;
                        self.remote_selected = 0;
                        if self.init_step_is(InitStep::RemotePath) {
                            self.begin_init_local_path();
                        } else {
                            self.refresh_remote();
                        }
                        self.commit_tail(InputMode::EditingRemotePath);
                        None
                    },
                }
            },
            InputMode::EditingLocalPath => {
                let home = match &self.home {
                    Some(h) => Some(h.as_str()),
                    None => None,
                };
                let d = local_dir_candidate(value.as_str(), home);
                self.resume = Some(Resume::AfterDirCheck { value });
                assert(self@ =~= spec_commit_input(old(self)@).0);
                Some(Request::CheckLocalDir { path: d })
            },
            InputMode::Normal => {
                self.commit_tail(InputMode::Normal);
                None
            },
        }
    }

    /// Answers a `CheckLocalDir` request: whether the path is a directory.
    pub fn local_dir_checked(&mut self, is_dir: bool) -> (r: Option<Request>)
        requires
            old(self).wf(),
            old(self)@.resume matches Some(ResumeView::AfterDirCheck(_)),
        ensures
            final(self).wf(),
            (final(self)@, request_view(r)) == spec_local_dir_checked(old(self)@, is_dir),
    {
        let resume = self.resume.take();
        let value = match resume {
            Some(Resume::AfterDirCheck { value }) => value,
            _ => {
                return None;
            },
        };
        let home = match &self.home {
            Some(h) => Some(h.as_str()),
            None => None,
        };
        assert(opt_view(home) == self@.home);
        match crate::config::sanitize_local_dir(value.as_str(), home, is_dir) {
            Ok(dir) => {
                self.local_cwd = dir;
                self.local_selected = 0;
                assert(self@ =~= AppView {
                    local_cwd: self.local_cwd@,
                    local_selected: 0,
                    resume: None,
                    ..old(self)@
                });
                Some(self.refresh_local(AfterRead::CommitLocal))
            },
            Err(e) => {
                let mut m = string_of("Invalid source directory: ");
                let t = e.message();
                m.append(t.as_str());
                assert(m@ =~= "Invalid source directory: "@ + "source directory does not exist: "@
                    + spec_local_dir_candidate(value@, self@.home));
                assert(self@ =~= AppView { resume: None, ..old(self)@ });
                self.log(m);
                None
            },
        }
    }

    fn finish_init(&mut self) -> (r: Request)
        requires
            old(self).wf(),
        ensures
            final(self).wf(),
            (final(self)@, Some(r@)) == spec_finish_init(old(self)@),
    {
        self.resume = Some(Resume::AfterSave);
        assert(self@ =~= spec_finish_init(old(self)@).0);
        Request::SaveConfig {
            config: AppConfig {
                remote_host: self.remote_host.clone(),
                remote_path: self.remote_cwd.clone(),
                local_dir: self.local_cwd.clone(),
            },
        }
    }

    fn after_read(&mut self, next: AfterRead) -> (r: Option<Request>)
        requires
            old(self).wf(),
        ensures
            final(self).wf(),
            (final(self)@, request_view(r)) == spec_after_read(old(self)@, next),
    {
        match next {
            AfterRead::Nothing => None,
            AfterRead::CommitLocal => {
                if self.init_step_is(InitStep::LocalPath) {
                    Some(self.finish_init())
                } else {
                    self.commit_tail(InputMode::EditingLocalPath);
                    None
                }
            },
            AfterRead::TransferComplete => {
                self.refresh_remote();
                self.log_str("Transfer complete.");
                None
            },
        }
    }

    /// Answers a `ReadLocalDir` request: the entries the directory holds, or
    /// why it could not be read.
    pub fn local_listing_loaded(&mut self, loaded: Result<Vec<DirEntryInfo>, String>) -> (r: Option<
        Request,
    >)
        requires
            old(self).wf(),
            old(self)@.resume matches Some(ResumeView::AfterLocalRead(_)),
        ensures
            final(self).wf(),
            match loaded {
                Ok(infos) => is_listing_of(
                    final(self)@.local_entries,
                    infos@.map_values(|i: DirEntryInfo| spec_local_entry(i, old(self)@.local_marks.to_set())),
                ) && (final(self)@, request_view(r)) == spec_local_loaded(
                    old(self)@,
                    Ok(final(self)@.local_entries),
                ),
                Err(e) => (final(self)@, request_view(r)) == spec_local_loaded(old(self)@, Err(e@)),
            },
    {
        let resume = self.resume.take();
        let next = match resume {
            Some(Resume::AfterLocalRead(n)) => n,
            _ => {
                return None;
            },
        };
        match loaded {
            Ok(infos) => {
                let entries = listing_entries(infos, &self.local_marks);
                let len = entries.len();
                self.local_entries = entries;
                self.local_selected = clamp_selection(self.local_selected, len);
                let ghost es = local_views(self.local_entries@);
                assert(self@ =~= AppView {
                    local_entries: es,
                    local_selected: spec_clamp_selection(old(self)@.local_selected, es.len()),
                    resume: None,
                    ..old(self)@
                });
                let r = self.after_read(next);
                r
            },
            Err(e) => {
                let mut m = string_of("Local refresh failed: ");
                m.append(e.as_str());
                assert(self@ =~= AppView { resume: None, ..old(self)@ });
                self.log(m);
                self.after_read(next)
            },
        }
    }

    /// Answers a `SaveConfig` request: where the settings were saved, or why
    /// they could not be.
    pub fn config_saved(&mut self, saved: Result<String, String>)
        requires
            old(self).wf(),
            old(self)@.resume matches Some(ResumeView::AfterSave),
        ensures
            final(self).wf(),
            final(self)@ == spec_config_saved(
                old(self)@,
                match saved {
                    Ok(p) => Ok(p@),
                    Err(e) => Err(e@),
                },
            ),
    {
        self.resume = None;
        assert(self@ =~= AppView { resume: None, ..old(self)@ });
        match saved {
            Ok(path) => {
                let mut m = string_of("Init saved to ");
                m.append(path.as_str());
                m.append(".");
                self.log(m);
                self.init_step = None;
                self.input_mode = InputMode::Normal;
                self.input_buffer = String::new();
                self.refresh_remote();
                self.commit_tail(InputMode::EditingLocalPath);
            },
            Err(e) => {
                let mut m = string_of("Init save failed: ");
                m.append(e.as_str());
                self.log(m);
                self.commit_tail(InputMode::EditingLocalPath);
            },
        }
    }

    fn handle_input_key(&mut self, key: KeyPress) -> (r: Option<Request>)
        requires
            old(self).wf(),
            old(self)@.resume is None,
        ensures
            final(self).wf(),
            (final(self)@, request_view(r)) == spec_handle_input_key(old(self)@, key),
    {
        match key.code {
            Key::Esc => {
                if self.init_step.is_some() {
                    self.init_step = None;
                    self.log_str("Init cancelled; current settings were not saved.");
                }
                self.input_mode = InputMode::Normal;
                self.input_buffer = String::new();
                assert(self@ =~= spec_handle_input_key(old(self)@, key).0);
                None
            },
            Key::Enter => self.commit_input(),
            Key::Backspace => {
                let n = self.input_buffer.as_str().unicode_len();
                if n > 0 {
                    self.input_buffer = crate::text::substring(self.input_buffer.as_str(), 0, n - 1);
                    assert(self.input_buffer@ =~= old(self)@.input_buffer.drop_last());
                }
                assert(self@ =~= spec_handle_input_key(old(self)@, key).0);
                None
            },
            Key::Char(c) => {
                if !key.ctrl {
                    crate::text::push_char(&mut self.input_buffer, c);
                }
                assert(self@ =~= spec_handle_input_key(old(self)@, key).0);
                None
            },
            _ => None,
        }
    }

    fn handle_transfer_key(&mut self, key: KeyPress)
        requires
            old(self).wf(),
        ensures
            final(self).wf(),
            final(self)@ == spec_handle_transfer_key(old(self)@, key),
    {
        match key.code {
            Key::Up | Key::Char('k') => self.move_transfer_selection(-1),
            Key::Down | Key::Char('j') => self.move_transfer_selection(1),
            Key::Char('x') | Key::Char('c') => self.cancel_selected_transfer(),
            _ => {},
        }
    }

    fn handle_normal_key(&mut self, key: KeyPress) -> (r: Option<Request>)
        requires
            old(self).wf(),
            old(self)@.resume is None,
        ensures
            final(self).wf(),
            (final(self)@, request_view(r)) == spec_handle_normal_key(old(self)@, key),
    {
        match key.code {
            Key::Char('q') | Key::Esc => {
                self.should_quit = true;
                assert(self@ =~= AppView { should_quit: true, ..old(self)@ });
                return None;
            },
            Key::Char('t') => {
                self.toggle_view_mode();
                return None;
            },
            _ => {},
        }
        if self.view_mode == ViewMode::Transfers {
            self.handle_transfer_key(key);
            return None;
        }
        match key.code {
            Key::Tab => {
                self.toggle_active_pane();
                None
            },
            Key::Up | Key::Char('k') => {
                self.move_selection(-1);
                None
            },
            Key::Down | Key::Char('j') => {
                self.move_selection(1);
                None
            },
            Key::Enter => self.open_selected(),
            Key::Backspace | Key::Left | Key::Char('h') => self.open_parent(),
            Key::Char(' ') => self.toggle_mark(),
            Key::Char('u') => {
                self.start_upload();
                None
            },
            Key::Char('r') => self.refresh_active(),
            Key::Char('o') => {
                self.begin_edit_host();
                None
            },
            Key::Char('g') => {
                self.begin_edit_remote_path();
                None
            },
            _ => None,
        }
    }

    /// Handles one key press.
    pub fn handle_key(&mut self, key: KeyPress) -> (r: Option<Request>)
        requires
            old(self).wf(),
            old(self)@.resume is None,
        ensures
            final(self).wf(),
            (final(self)@, request_view(r)) == spec_handle_key(old(self)@, key),
    {
        if key.ctrl && key.code == Key::Char('c') {
            self.should_quit = true;
            assert(self@ =~= AppView { should_quit: true, ..old(self)@ });
            return None;
        }
        match self.input_mode {
            InputMode::Normal => self.handle_normal_key(key),
            _ => self.handle_input_key(key),
        }
    }
}

/// What a poll of the remote listing worker found.
#[derive(Debug)]
pub enum RemotePoll {
    /// Nothing yet.
    Empty,
    /// The listing, or why it failed.
    Received(Result<RemoteListing, String>),
    /// The worker went away without an answer.
    Disconnected,
}

pub enum RemotePollView {
    Empty,
    Listed(Seq<char>, Seq<RemoteEntryView>),
    Failed(Seq<char>),
    Disconnected,
}

impl View for RemotePoll {
    type V = RemotePollView;

    open spec fn view(&self) -> RemotePollView {
        match self {
            RemotePoll::Empty => RemotePollView::Empty,
            RemotePoll::Received(Ok(l)) => RemotePollView::Listed(l.cwd@, remote_views(l.entries@)),
            RemotePoll::Received(Err(e)) => RemotePollView::Failed(e@),
            RemotePoll::Disconnected => RemotePollView::Disconnected,
        }
    }
}

/// What a poll of the upload worker found.
#[derive(Debug)]
pub enum TransferPoll {
    Event(TransferEvent),
    /// Nothing more for now.
    Empty,
    /// The worker went away.
    Disconnected,
}

pub enum TransferPollView {
    Event(TransferEventView),
    Empty,
    Disconnected,
}

impl View for TransferPoll {
    type V = TransferPollView;

    open spec fn view(&self) -> TransferPollView {
        match self {
            TransferPoll::Event(e) => TransferPollView::Event(e@),
            TransferPoll::Empty => TransferPollView::Empty,
            TransferPoll::Disconnected => TransferPollView::Disconnected,
        }
    }
}

pub open spec fn poll_views(p: Seq<TransferPoll>) -> Seq<TransferPollView> {
    p.map_values(|x: TransferPoll| x@)
}

pub open spec fn remote_failed(s: AppView, e: Seq<char>) -> AppView {
    spec_log(
        AppView { remote_loading: false, remote_entries: Seq::empty(), remote_selected: 0, ..s },
        "Remote refresh failed: "@ + e,
    )
}

/// A poll of the remote listing worker: a listing replaces the remote pane
/// (the selection held inside it); a failure empties it, with a message.
pub open spec fn spec_drain_remote_events(s: AppView, poll: RemotePollView) -> AppView {
    if !s.remote_loading {
        s
    } else {
        match poll {
            RemotePollView::Empty => s,
            RemotePollView::Disconnected => remote_failed(s, "remote worker disconnected"@),
            RemotePollView::Failed(e) => remote_failed(s, e),
            RemotePollView::Listed(cwd, entries) => spec_log(
                AppView {
                    remote_loading: false,
                    remote_cwd: cwd,
                    remote_entries: entries,
                    remote_selected: spec_clamp_selection(s.remote_selected, entries.len()),
                    ..s
                },
                "Remote refreshed."@,
            ),
        }
    }
}

pub open spec fn continuing_message(index: usize, total: usize) -> Seq<char> {
    "Continuing with queued item "@ + decimal((index + 1) as nat) + "/"@ + decimal(total as nat) + "."@
}

/// One report of the upload worker: the queue item and the status line
/// follow it, with a message where an item starts, ends or is skipped.
pub open spec fn spec_transfer_event(s: AppView, e: TransferEventView) -> AppView {
    match e {
        TransferEventView::Canceled { path, index, total } => {
            let s1 = spec_update_upload_item(
                s,
                index,
                UploadStatus::Canceled,
                None,
                None,
                0,
                Some("canceled"@),
            );
            let s2 = AppView {
                transfer_status: Some(
                    TransferStatusView::Canceled { index, total, name: spec_display_name(path) },
                ),
                ..s1
            };
            if index < total {
                spec_log(s2, continuing_message(index, total))
            } else {
                s2
            }
        },
        TransferEventView::Started { path, index, total, bytes_total } => {
            let s1 = spec_update_upload_item(
                s,
                index,
                UploadStatus::Active,
                Some(0),
                bytes_total,
                0,
                None,
            );
            let s2 = AppView {
                transfer_status: Some(
                    TransferStatusView::Progress {
                        action: StatusAction::Uploading,
                        index,
                        total,
                        name: spec_display_name(path),
                        bytes_sent: Some(0),
                        bytes_total,
                        elapsed_secs: 0,
                    },
                ),
                ..s1
            };
            spec_log(
                s2,
                "Starting "@ + decimal(index as nat) + "/"@ + decimal(total as nat) + ": "@ + path,
            )
        },
        TransferEventView::Progress { path, index, total, bytes_sent, bytes_total, elapsed_secs } => {
            let s1 = spec_update_upload_item(
                s,
                index,
                UploadStatus::Active,
                bytes_sent,
                bytes_total,
                elapsed_secs,
                None,
            );
            AppView {
                transfer_status: Some(
                    TransferStatusView::Progress {
                        action: StatusAction::Uploading,
                        index,
                        total,
                        name: spec_display_name(path),
                        bytes_sent,
                        bytes_total,
                        elapsed_secs,
                    },
                ),
                ..s1
            }
        },
        TransferEventView::Finished {
            path,
            index,
            total,
            success,
            message,
            bytes_sent,
            bytes_total,
            elapsed_secs,
        } => {
            let s1 = spec_update_upload_item(
                s,
                index,
                if success {
                    UploadStatus::Done
                } else {
                    UploadStatus::Failed
                },
                bytes_sent,
                bytes_total,
                elapsed_secs,
                Some(message),
            );
            let s2 = AppView {
                transfer_status: Some(
                    TransferStatusView::Progress {
                        action: if success {
                            StatusAction::Done
                        } else {
                            StatusAction::Failed
                        },
                        index,
                        total,
                        name: spec_display_name(path),
                        bytes_sent,
                        bytes_total,
                        elapsed_secs,
                    },
                ),
                ..s1
            };
            let label = if success {
                "Done"@
            } else {
                "Failed"@
            };
            let s3 = spec_log(s2, label + ": "@ + path + " ("@ + message + ")"@);
            if index < total {
                spec_log(s3, continuing_message(index, total))
            } else {
                s3
            }
        },
        TransferEventView::Complete => s,
    }
}

/// The reports of one poll applied in order, up to the first that ends it:
/// nothing more for now, the end of the queue, or a worker gone away (the
/// latter two complete the transfer).
pub open spec fn apply_transfer_polls(s: AppView, polls: Seq<TransferPollView>) -> (AppView, bool)
    decreases polls.len(),
{
    if polls.len() == 0 {
        (s, false)
    } else {
        match polls[0] {
            TransferPollView::Empty => (s, false),
            TransferPollView::Disconnected => (s, true),
            TransferPollView::Event(TransferEventView::Complete) => (s, true),
            TransferPollView::Event(e) => apply_transfer_polls(
                spec_transfer_event(s, e),
                polls.drop_first(),
            ),
        }
    }
}

/// A poll of the upload worker; once the transfer completes, the marks are
/// cleared and both panes read again.
pub open spec fn spec_drain_transfer_events(s: AppView, polls: Seq<TransferPollView>) -> Step {
    if !s.transferring {
        (s, None)
    } else {
        let (s1, completed) = apply_transfer_polls(s, polls);
        if completed {
            spec_refresh_local(
                AppView {
                    transferring: false,
                    local_marks: Seq::empty(),
                    transfer_status: Some(TransferStatusView::Complete),
                    ..s1
                },
                AfterRead::TransferComplete,
            )
        } else {
            (s1, None)
        }
    }
}

impl App {
    /// Handles a poll of the remote listing worker.
    pub fn drain_remote_events(&mut self, poll: RemotePoll)
        requires
            old(self).wf(),
        ensures
            final(self).wf(),
            final(self)@ == spec_drain_remote_events(old(self)@, poll@),
    {
        if !self.remote_loading {
            return;
        }
        let result = match poll {
            RemotePoll::Empty => {
                return;
            },
            RemotePoll::Received(r) => r,
            RemotePoll::Disconnected => Err(string_of("remote worker disconnected")),
        };
        self.remote_loading = false;
        match result {
            Ok(listing) => {
                let len = listing.entries.len();
                self.remote_cwd = listing.cwd;
                self.remote_entries = listing.entries;
                self.remote_selected = clamp_selection(self.remote_selected, len);
                self.log_str("Remote refreshed.");
            },
            Err(e) => {
                self.remote_selected = 0;
                self.remote_entries = Vec::new();
                let mut m = string_of("Remote refresh failed: ");
                m.append(e.as_str());
                assert(self@ =~= AppView {
                    remote_loading: false,
                    remote_entries: Seq::empty(),
                    remote_selected: 0,
                    ..old(self)@
                });
                self.log(m);
            },
        }
    }

    fn log_continuing(&mut self, index: usize, total: usize)
        requires
            old(self).wf(),
            index < total,
        ensures
            final(self).wf(),
            final(self)@ == spec_log(old(self)@, continuing_message(index, total)),
    {
        let mut m = string_of("Continuing with queued item ");
        let a = usize_to_string(index + 1);
        m.append(a.as_str());
        m.append("/");
        let b = usize_to_string(total);
        m.append(b.as_str());
        m.append(".");
        self.log(m);
    }

    fn apply_transfer_event(&mut self, event: TransferEvent)
        requires
            old(self).wf(),
        ensures
            final(self).wf(),
            final(self)@ == spec_transfer_event(old(self)@, event@),
    {
        match event {
            TransferEvent::Canceled { path, index, total } => {
                self.update_upload_item(
                    index,
                    UploadStatus::Canceled,
                    None,
                    None,
                    0,
                    Some(string_of("canceled")),
                );
                let name = display_name(path.as_str());
                self.transfer_status = Some(TransferStatus::Canceled { index, total, name });
                if index < total {
                    self.log_continuing(index, total);
                }
            },
            TransferEvent::Started { path, index, total, bytes_total } => {
                self.update_upload_item(index, UploadStatus::Active, Some(0), bytes_total, 0, None);
                let name = display_name(path.as_str());
                self.transfer_status = Some(
                    TransferStatus::Progress {
                        action: StatusAction::Uploading,
                        index,
                        total,
                        name,
                        bytes_sent: Some(0),
                        bytes_total,
                        elapsed_secs: 0,
                    },
                );
                let mut m = string_of("Starting ");
                let a = usize_to_string(index);
                m.append(a.as_str());
                m.append("/");
                let b = usize_to_string(total);
                m.append(b.as_str());
                m.append(": ");
                m.append(path.as_str());
                self.log(m);
            },
            TransferEvent::Progress { path, index, total, bytes_sent, bytes_total, elapsed_secs } => {
                self.update_upload_item(
                    index,
                    UploadStatus::Active,
                    bytes_sent,
                    bytes_total,
                    elapsed_secs,
                    None,
                );
                let name = display_name(path.as_str());
                self.transfer_status = Some(
                    TransferStatus::Progress {
                        action: StatusAction::Uploading,
                        index,
                        total,
                        name,
                        bytes_sent,
                        bytes_total,
                        elapsed_secs,
                    },
                );
            },
            TransferEvent::Finished {
                path,
                index,
                total,
                success,
                message,
                bytes_sent,
                bytes_total,
                elapsed_secs,
            } => {
                let status = if success {
                    UploadStatus::Done
                } else {
                    UploadStatus::Failed
                };
                self.update_upload_item(
                    index,
                    status,
                    bytes_sent,
                    bytes_total,
                    elapsed_secs,
                    Some(message.clone()),
                );
                let name = display_name(path.as_str());
                self.transfer_status = Some(
                    TransferStatus::Progress {
                        action: if success {
                            StatusAction::Done
                        } else {
                            StatusAction::Failed
                        },
                        index,
                        total,
                        name,
                        bytes_sent,
                        bytes_total,
                        elapsed_secs,
                    },
                );
                let mut m = if success {
                    string_of("Done")
                } else {
                    string_of("Failed")
                };
                m.append(": ");
                m.append(path.as_str());
                m.append(" (");
                m.append(message.as_str());
                m.append(")");
                self.log(m);
                if index < total {
                    self.log_continuing(index, total);
                }
            },
            TransferEvent::Complete => {},
        }
    }

    /// Handles a poll of the upload worker: `polls` holds what the worker
    /// reported since the last poll, in order.
    pub fn drain_transfer_events(&mut self, polls: Vec<TransferPoll>) -> (r: Option<Request>)
        requires
            old(self).wf(),
            old(self)@.resume is None,
        ensures
            final(self).wf(),
            (final(self)@, request_view(r)) == spec_drain_transfer_events(
                old(self)@,
                poll_views(polls@),
            ),
    {
        if !self.transferring {
            return None;
        }
        let ghost all = poll_views(polls@);
        let mut polls = polls;
        let mut completed = false;
        loop
            invariant_except_break
                !completed,
                self.wf(),
                self@.transferring,
                self@.resume is None,
                apply_transfer_polls(old(self)@, all) == apply_transfer_polls(
                    self@,
                    poll_views(polls@),
                ),
            ensures
                self.wf(),
                self@.transferring,
                self@.resume is None,
                apply_transfer_polls(old(self)@, all) == (self@, completed),
            decreases polls@.len(),
        {
            if polls.len() == 0 {
                break;
            }
            let ghost pv = poll_views(polls@);
            let p = polls.remove(0);
            proof {
                assert(pv[0] == p@);
                assert(poll_views(polls@) =~= pv.drop_first());
            }
            match p {
                TransferPoll::Empty => {
                    break;
                },
                TransferPoll::Disconnected => {
                    completed = true;
                    break;
                },
                TransferPoll::Event(TransferEvent::Complete) => {
                    completed = true;
                    break;
                },
                TransferPoll::Event(e) => {
                    self.apply_transfer_event(e);
                },
            }
        }
        if completed {
            self.transferring = false;
            self.local_marks = Vec::new();
            self.transfer_status = Some(TransferStatus::Complete);
            proof {
                assert(views(self.local_marks@) =~= Seq::<Seq<char>>::empty());
            }
            Some(self.refresh_local(AfterRead::TransferComplete))
        } else {
            None
        }
    }
}

/// What a start of the program gives the browser.
#[derive(Debug)]
pub struct Startup {
    pub remote_host: Option<String>,
    pub remote_path: String,
    pub local_dir: String,
    pub needs_init: bool,
}

pub open spec fn startup_host(s: Startup) -> Seq<char> {
    match s.remote_host {
        Some(h) => h@,
        None => Seq::empty(),
    }
}

/// The state before anything happened: the local pane open on the source
/// directory, then the first-run setup, the host prompt, or the remote
/// listing.
pub open spec fn spec_new(st: Startup, home: Option<Seq<char>>, entries: Seq<LocalEntryView>) -> AppView {
    let s0 = AppView {
        local_cwd: st.local_dir@,
        local_entries: entries,
        local_selected: 0,
        local_marks: Seq::empty(),
        remote_host: startup_host(st),
        remote_cwd: st.remote_path@,
        remote_entries: Seq::empty(),
        remote_selected: 0,
        active_pane: ActivePane::Local,
        view_mode: ViewMode::Browser,
        input_mode: InputMode::Normal,
        input_buffer: Seq::empty(),
        logs: Seq::empty(),
        remote_loading: false,
        transfer_queue: Seq::empty(),
        transfer_selected: 0,
        transfer_status: None,
        transferring: false,
        should_quit: false,
        init_step: None,
        home,
        resume: None,
        outbox: Seq::empty(),
    };
    if st.needs_init {
        spec_begin_init(s0)
    } else if s0.remote_host.len() == 0 {
        spec_log(
            spec_begin_edit_host(s0),
            "Enter a remote host, e.g. user@nas or an SSH config alias."@,
        )
    } else {
        spec_refresh_remote(s0)
    }
}

impl App {
    /// The browser for a start of the program; `infos` is what the source
    /// directory holds, `home` the home directory where one is known.
    pub fn new(startup: Startup, home: Option<String>, infos: Vec<DirEntryInfo>) -> (r: App)
        ensures
            r.wf(),
            is_listing_of(
                r@.local_entries,
                infos@.map_values(|i: DirEntryInfo| spec_local_entry(i, Set::empty())),
            ),
            r@ == spec_new(startup, opt_string_view(home), r@.local_entries),
    {
        let marks: Vec<String> = Vec::new();
        assert(views(marks@).to_set() =~= Set::<Seq<char>>::empty());
        let local_entries = listing_entries(infos, &marks);
        let remote_host = match startup.remote_host {
            Some(h) => h,
            None => String::new(),
        };
        let needs_init = startup.needs_init;
        let mut app = App {
            local_cwd: startup.local_dir,
            local_entries,
            local_selected: 0,
            local_marks: marks,
            remote_host,
            remote_cwd: startup.remote_path,
            remote_entries: Vec::new(),
            remote_selected: 0,
            active_pane: ActivePane::Local,
            view_mode: ViewMode::Browser,
            input_mode: InputMode::Normal,
            input_buffer: String::new(),
            logs: Vec::new(),
            remote_loading: false,
            transfer_queue: Vec::new(),
            transfer_selected: 0,
            transfer_status: None,
            transferring: false,
            should_quit: false,
            init_step: None,
            home,
            resume: None,
            outbox: Vec::new(),
        };
        if needs_init {
            app.begin_init();
        } else if app.remote_host.as_str().unicode_len() == 0 {
            app.begin_edit_host();
            app.log_str("Enter a remote host, e.g. user@nas or an SSH config alias.");
        } else {
            app.refresh_remote();
        }
        app
    }
}

/// Whether the first argument asks for the first-run setup.
pub open spec fn asks_init(args: Seq<Seq<char>>) -> bool {
    args.len() > 0 && (args[0] == "init"@ || args[0] == "--init"@)
}

/// The start of the program from its arguments: an optional `init` (or
/// `--init`), then an optional host and an optional remote path, each
/// checked, in place of the stored settings (the defaults where none could
/// be read, which also asks for the setup).
pub open spec fn spec_from_args(
    args: Seq<Seq<char>>,
    stored: Option<AppConfig>,
    defaults: AppConfig,
) -> Result<(Option<Seq<char>>, Seq<char>, Seq<char>, bool), ConfigError> {
    let force = asks_init(args);
    let rest = if force {
        args.drop_first()
    } else {
        args
    };
    let config = match stored {
        Some(c) => c,
        None => defaults,
    };
    let needs_init = match stored {
        Some(_) => force,
        None => true,
    };
    let host = if rest.len() > 0 {
        match spec_sanitize_host(rest[0]) {
            Ok(h) => Ok(h),
            Err(e) => Err(e),
        }
    } else {
        Ok(config.remote_host@)
    };
    let path = if rest.len() > 1 {
        spec_sanitize_remote_path(rest[1])
    } else {
        Ok(config.remote_path@)
    };
    match host {
        Err(e) => Err(e),
        Ok(h) => match path {
            Err(e) => Err(e),
            Ok(p) => Ok((Some(h), p, config.local_dir@, needs_init)),
        },
    }
}

pub open spec fn startup_view(s: Startup) -> (Option<Seq<char>>, Seq<char>, Seq<char>, bool) {
    (opt_string_view(s.remote_host), s.remote_path@, s.local_dir@, s.needs_init)
}

impl Startup {
    /// The start of the program from its arguments (the program name left
    /// out), the stored settings where they could be read, and the defaults.
    pub fn from_args(args: Vec<String>, stored: Option<AppConfig>, defaults: AppConfig) -> (r: Result<
        Startup,
        ConfigError,
    >)
        ensures
            match r {
                Ok(s) => spec_from_args(views(args@), stored, defaults) == Ok::<
                    (Option<Seq<char>>, Seq<char>, Seq<char>, bool),
                    ConfigError,
                >(startup_view(s)),
                Err(e) => spec_from_args(views(args@), stored, defaults) == Err::<
                    (Option<Seq<char>>, Seq<char>, Seq<char>, bool),
                    ConfigError,
                >(e),
            },
    {
        let ghost av = views(args@);
        let mut args = args;
        let force_init = args.len() > 0 && (crate::text::str_eq(args[0].as_str(), "init")
            || crate::text::str_eq(args[0].as_str(), "--init"));
        if force_init {
            args.remove(0);
            assert(views(args@) =~= av.drop_first());
        }
        let ghost rest = views(args@);
        let loaded = crate::config::load(force_init, stored, defaults);
        let remote_host = if args.len() > 0 {
            assert(rest[0] == args@[0]@);
            match sanitize_host(args[0].as_str()) {
                Ok(h) => Some(h),
                Err(e) => {
                    return Err(e);
                },
            }
        } else {
            Some(loaded.config.remote_host)
        };
        let remote_path = if args.len() > 1 {
            assert(rest[1] == args@[1]@);
            match sanitize_remote_path(args[1].as_str()) {
                Ok(p) => p,
                Err(e) => {
                    return Err(e);
                },
            }
        } else {
            loaded.config.remote_path
        };
        Ok(
            Startup {
                remote_host,
                remote_path,
                local_dir: loaded.config.local_dir,
                needs_init: loaded.needs_init,
            },
        )
    }
}

/// Switching panes twice returns to the same state.
pub proof fn law_toggle_active_pane_twice(s: AppView)
    ensures
        spec_toggle_active_pane(spec_toggle_active_pane(s)) == s,
{
    assert(spec_toggle_active_pane(spec_toggle_active_pane(s)) =~= s);
}

/// Switching between the browser and the transfer page twice returns to the
/// same state.
pub proof fn law_toggle_view_mode_twice(s: AppView)
    ensures
        spec_toggle_view_mode(spec_toggle_view_mode(s)) == s,
{
    assert(spec_toggle_view_mode(spec_toggle_view_mode(s)) =~= s);
}

/// Marking an entry and marking it again leaves the same paths marked; the
/// first toggle marks exactly that entry or unmarks exactly it, and no path
/// is ever marked twice.
pub proof fn law_toggle_mark_twice(marks: Seq<Seq<char>>, path: Seq<char>)
    requires
        marks.no_duplicates(),
    ensures
        toggled(toggled(marks, path), path).to_set() == marks.to_set(),
        toggled(marks, path).no_duplicates(),
        toggled(marks, path).contains(path) == !marks.contains(path),
        forall|q: Seq<char>| q != path ==> toggled(marks, path).contains(q) == marks.contains(q),
{
    lemma_toggled(marks, path);
    lemma_toggled(toggled(marks, path), path);
    assert(toggled(toggled(marks, path), path).to_set() =~= marks.to_set());
}

/// No two entries of the listing have the same path.
pub open spec fn distinct_paths(entries: Seq<LocalEntryView>) -> bool {
    forall|i: int, j: int|
        0 <= i < j < entries.len() ==> #[trigger] entries[i].path != #[trigger] entries[j].path
}

proof fn lemma_listed_drop_last(entries: Seq<LocalEntryView>, p: Seq<char>)
    requires
        entries.len() > 0,
    ensures
        listed(entries, p) == (listed(entries.drop_last(), p) || entries.last().path == p),
{
    let d = entries.drop_last();
    if listed(entries, p) {
        let i = choose|i: int| 0 <= i < entries.len() && #[trigger] entries[i].path == p;
        if i < d.len() {
            assert(d[i].path == p);
        }
    }
    if listed(d, p) {
        let i = choose|i: int| 0 <= i < d.len() && #[trigger] d[i].path == p;
        assert(entries[i].path == p);
    }
    if entries.last().path == p {
        assert(entries[entries.len() - 1].path == p);
    }
}

proof fn lemma_marked_paths(entries: Seq<LocalEntryView>, marks: Seq<Seq<char>>)
    ensures
        forall|p: Seq<char>|
            #[trigger] marked_paths(entries, marks).contains(p) == (listed(entries, p) && marks.contains(p)),
        distinct_paths(entries) ==> marked_paths(entries, marks).no_duplicates(),
    decreases entries.len(),
{
    if entries.len() > 0 {
        let d = entries.drop_last();
        let last = entries.last().path;
        lemma_marked_paths(d, marks);
        let m = marked_paths(d, marks);
        assert forall|p: Seq<char>| #[trigger]
            marked_paths(entries, marks).contains(p) == (listed(entries, p) && marks.contains(p)) by {
            lemma_listed_drop_last(entries, p);
            if marks.contains(last) {
                assert(marked_paths(entries, marks) == m.push(last));
                if m.push(last).contains(p) {
                    let k = choose|k: int| 0 <= k < m.push(last).len() && m.push(last)[k] == p;
                    if k < m.len() {
                        assert(m[k] == p);
                    }
                }
                if m.contains(p) {
                    let k = choose|k: int| 0 <= k < m.len() && m[k] == p;
                    assert(m.push(last)[k] == p);
                }
                assert(m.push(last)[m.len() as int] == last);
            }
        }
        if distinct_paths(entries) && marks.contains(last) {
            assert(distinct_paths(d)) by {
                assert forall|i: int, j: int| 0 <= i < j < d.len() implies #[trigger] d[i].path
                    != #[trigger] d[j].path by {
                    assert(d[i] == entries[i] && d[j] == entries[j]);
                }
            }
            assert(!listed(d, last)) by {
                if listed(d, last) {
                    let i = choose|i: int| 0 <= i < d.len() && #[trigger] d[i].path == last;
                    assert(entries[i].path == entries[entries.len() - 1].path);
                }
            }
            assert(!m.contains(last));
            let r = m.push(last);
            assert forall|a: int, b: int| 0 <= a < r.len() && 0 <= b < r.len() && a != b implies r[a]
                != r[b] by {
                if a < m.len() && b < m.len() {
                    assert(r[a] == m[a] && r[b] == m[b]);
                } else if a < m.len() {
                    assert(r[a] == m[a]);
                } else if b < m.len() {
                    assert(r[b] == m[b]);
                }
            }
        } else if distinct_paths(entries) {
            assert(distinct_paths(d)) by {
                assert forall|i: int, j: int| 0 <= i < j < d.len() implies #[trigger] d[i].path
                    != #[trigger] d[j].path by {
                    assert(d[i] == entries[i] && d[j] == entries[j]);
                }
            }
        }
    }
}

proof fn lemma_unlisted_marks(marks: Seq<Seq<char>>, entries: Seq<LocalEntryView>)
    ensures
        forall|p: Seq<char>|
            #[trigger] unlisted_marks(marks, entries).contains(p) == (marks.contains(p) && !listed(entries, p)),
        marks.no_duplicates() ==> unlisted_marks(marks, entries).no_duplicates(),
    decreases marks.len(),
{
    if marks.len() > 0 {
        let d = marks.drop_last();
        let last = marks.last();
        lemma_unlisted_marks(d, entries);
        let u = unlisted_marks(d, entries);
        assert forall|p: Seq<char>| #[trigger]
            unlisted_marks(marks, entries).contains(p) == (marks.contains(p) && !listed(entries, p)) by {
            if marks.contains(p) {
                let k = choose|k: int| 0 <= k < marks.len() && marks[k] == p;
                if k < d.len() {
                    assert(d[k] == p);
                }
            }
            if d.contains(p) {
                let k = choose|k: int| 0 <= k < d.len() && d[k] == p;
                assert(marks[k] == p);
            }
            assert(marks[marks.len() - 1] == last);
            if !listed(entries, last) {
                if u.push(last).contains(p) {
                    let k = choose|k: int| 0 <= k < u.push(last).len() && u.push(last)[k] == p;
                    if k < u.len() {
                        assert(u[k] == p);
                    }
                }
                if u.contains(p) {
                    let k = choose|k: int| 0 <= k < u.len() && u[k] == p;
                    assert(u.push(last)[k] == p);
                }
                assert(u.push(last)[u.len() as int] == last);
            }
        }
        if marks.no_duplicates() {
            assert(d.no_duplicates()) by {
                assert forall|a: int, b: int| 0 <= a < d.len() && 0 <= b < d.len() && a != b implies d[a]
                    != d[b] by {
                    assert(d[a] == marks[a] && d[b] == marks[b]);
                }
            }
            if !listed(entries, last) {
                assert(!d.contains(last)) by {
                    if d.contains(last) {
                        let k = choose|k: int| 0 <= k < d.len() && d[k] == last;
                        assert(marks[k] == marks[marks.len() - 1]);
                    }
                }
                assert(!u.contains(last));
                let r = u.push(last);
                assert forall|a: int, b: int| 0 <= a < r.len() && 0 <= b < r.len() && a != b implies r[a]
                    != r[b] by {
                    if a < u.len() && b < u.len() {
                        assert(r[a] == u[a] && r[b] == u[b]);
                    } else if a < u.len() {
                        assert(r[a] == u[a]);
                    } else if b < u.len() {
                        assert(r[b] == u[b]);
                    }
                }
            }
        }
    }
}

/// Where paths are marked, an upload takes every marked path and nothing
/// else, wherever it was marked; where the listing has no path twice, each
/// marked path goes up exactly once.
pub proof fn law_upload_takes_every_mark(s: AppView)
    requires
        view_wf(s),
        s.local_marks.len() > 0,
    ensures
        forall|p: Seq<char>| #[trigger]
            spec_paths_to_upload(s).contains(p) == s.local_marks.contains(p),
        distinct_paths(s.local_entries) ==> spec_paths_to_upload(s).no_duplicates(),
{
    let a = marked_paths(s.local_entries, s.local_marks);
    let b = unlisted_marks(s.local_marks, s.local_entries);
    lemma_marked_paths(s.local_entries, s.local_marks);
    lemma_unlisted_marks(s.local_marks, s.local_entries);
    let r = a + b;
    assert forall|p: Seq<char>| #[trigger] r.contains(p) == s.local_marks.contains(p) by {
        if r.contains(p) {
            let k = choose|k: int| 0 <= k < r.len() && r[k] == p;
            if k < a.len() {
                assert(a[k] == p);
                assert(a.contains(p));
            } else {
                assert(b[k - a.len()] == p);
                assert(b.contains(p));
            }
        }
        if s.local_marks.contains(p) {
            if listed(s.local_entries, p) {
                assert(a.contains(p));
                let k = choose|k: int| 0 <= k < a.len() && a[k] == p;
                assert(r[k] == p);
            } else {
                assert(b.contains(p));
                let k = choose|k: int| 0 <= k < b.len() && b[k] == p;
                assert(r[k + a.len()] == p);
            }
        }
    }
    if distinct_paths(s.local_entries) {
        assert forall|x: int, y: int| 0 <= x < r.len() && 0 <= y < r.len() && x != y implies r[x]
            != r[y] by {
            if x < a.len() && y < a.len() {
                assert(r[x] == a[x] && r[y] == a[y]);
            } else if x >= a.len() && y >= a.len() {
                assert(r[x] == b[x - a.len()] && r[y] == b[y - a.len()]);
            } else if x < a.len() {
                assert(r[x] == a[x] && r[y] == b[y - a.len()]);
                assert(a.contains(r[x]));
                assert(b.contains(r[y]));
            } else {
                assert(r[y] == a[y] && r[x] == b[x - a.len()]);
                assert(a.contains(r[y]));
                assert(b.contains(r[x]));
            }
        }
    }
}

/// What a toggle does to the marks, one path at a time.
proof fn lemma_toggled(marks: Seq<Seq<char>>, path: Seq<char>)
    requires
        marks.no_duplicates(),
    ensures
        toggled(marks, path).no_duplicates(),
        toggled(marks, path).contains(path) == !marks.contains(path),
        forall|q: Seq<char>| q != path ==> toggled(marks, path).contains(q) == marks.contains(q),
{
    if marks.contains(path) {
        let k = marks.index_of(path);
        assert(marks[k] == path);
        lemma_remove_keeps_distinct(marks, k);
    } else {
        lemma_push_keeps_distinct(marks, path);
    }
}

/// Taking one item out of a list without repeats leaves a list without
/// repeats, which no longer holds that item and holds every other.
proof fn lemma_remove_keeps_distinct(marks: Seq<Seq<char>>, k: int)
    requires
        marks.no_duplicates(),
        0 <= k < marks.len(),
    ensures
        marks.remove(k).no_duplicates(),
        !marks.remove(k).contains(marks[k]),
        forall|q: Seq<char>| q != marks[k] ==> marks.remove(k).contains(q) == marks.contains(q),
{
    let r = marks.remove(k);
    assert forall|a: int, b: int| 0 <= a < r.len() && 0 <= b < r.len() && a != b implies r[a]
        != r[b] by {
        let a1 = if a < k { a } else { a + 1 };
        let b1 = if b < k { b } else { b + 1 };
        assert(r[a] == marks[a1]);
        assert(r[b] == marks[b1]);
    }
    if r.contains(marks[k]) {
        let j = choose|j: int| 0 <= j < r.len() && r[j] == marks[k];
        let j1 = if j < k { j } else { j + 1 };
        assert(r[j] == marks[j1]);
    }
    assert forall|q: Seq<char>| q != marks[k] implies r.contains(q) == marks.contains(q) by {
        if r.contains(q) {
            let j = choose|j: int| 0 <= j < r.len() && r[j] == q;
            let j1 = if j < k { j } else { j + 1 };
            assert(r[j] == marks[j1]);
        }
        if marks.contains(q) {
            let j = choose|j: int| 0 <= j < marks.len() && marks[j] == q;
            if j < k {
                assert(r[j] == q);
            } else {
                assert(j != k);
                assert(r[j - 1] == q);
            }
        }
    }
}

/// Adding a new item to a list without repeats leaves it without repeats.
proof fn lemma_push_keeps_distinct(marks: Seq<Seq<char>>, path: Seq<char>)
    requires
        marks.no_duplicates(),
        !marks.contains(path),
    ensures
        marks.push(path).no_duplicates(),
        marks.push(path).contains(path),
        forall|q: Seq<char>| q != path ==> marks.push(path).contains(q) == marks.contains(q),
{
    let r = marks.push(path);
    assert(r[marks.len() as int] == path);
    assert forall|a: int, b: int| 0 <= a < r.len() && 0 <= b < r.len() && a != b implies r[a]
        != r[b] by {
        if a < marks.len() && b < marks.len() {
            assert(r[a] == marks[a] && r[b] == marks[b]);
        } else if a < marks.len() {
            assert(r[a] == marks[a]);
        } else if b < marks.len() {
            assert(r[b] == marks[b]);
        }
    }
    assert forall|q: Seq<char>| q != path implies r.contains(q) == marks.contains(q) by {
        if r.contains(q) {
            let j = choose|j: int| 0 <= j < r.len() && r[j] == q;
            assert(j < marks.len());
            assert(marks[j] == q);
        }
        if marks.contains(q) {
            let j = choose|j: int| 0 <= j < marks.len() && marks[j] == q;
            assert(r[j] == q);
        }
    }
}

/// The marks after `space` on the selected local entry are the old marks
/// with exactly that entry's path toggled.
pub proof fn law_toggle_mark_marks_selected(s: AppView)
    requires
        s.active_pane == ActivePane::Local,
        s.local_selected < s.local_entries.len(),
    ensures
        spec_toggle_mark(s).0.local_marks == toggled(
            s.local_marks,
            s.local_entries[s.local_selected as int].path,
        ),
        spec_toggle_mark(s).1 == Some(RequestView::ReadLocalDir(s.local_cwd)),
{
}

/// Canceling touches at most the selected item, and only one that still
/// waits: it becomes canceled, every other item (and an active one) stays as
/// it was, and the queue keeps its length.
pub proof fn law_cancel_only_touches_a_queued_item(s: AppView)
    ensures
        spec_cancel_selected_transfer(s).transfer_queue.len() == s.transfer_queue.len(),
        forall|i: int|
            0 <= i < s.transfer_queue.len() && i != s.transfer_selected ==> #[trigger] spec_cancel_selected_transfer(
                s,
            ).transfer_queue[i] == s.transfer_queue[i],
        s.transfer_selected < s.transfer_queue.len() && s.transfer_queue[s.transfer_selected as int].status
            != UploadStatus::Queued ==> spec_cancel_selected_transfer(s).transfer_queue
            == s.transfer_queue,
        s.transfer_selected < s.transfer_queue.len() && s.transfer_queue[s.transfer_selected as int].status
            == UploadStatus::Queued ==> spec_cancel_selected_transfer(
            s,
        ).transfer_queue[s.transfer_selected as int].status == UploadStatus::Canceled,
{
}

/// An upload that starts shows the transfer page, with one waiting item for
/// each path that it takes, and the worker is asked to upload exactly those
/// paths to the current remote directory.
pub proof fn law_start_upload_shows_the_queue(s: AppView)
    requires
        !s.transferring,
        spec_start_upload(s).transferring,
    ensures
        spec_start_upload(s).view_mode == ViewMode::Transfers,
        spec_start_upload(s).transfer_queue.len() > 0,
        forall|i: int|
            0 <= i < spec_start_upload(s).transfer_queue.len() ==> (#[trigger] spec_start_upload(
                s,
            ).transfer_queue[i]).status == UploadStatus::Queued,
        spec_start_upload(s).outbox.last() matches CommandView::StartUpload {
            paths,
            host,
            remote_dir,
        } && paths.len() == spec_start_upload(s).transfer_queue.len() && remote_dir
            == s.remote_cwd && is_safe_host(host),
{
    match spec_sanitize_host(s.remote_host) {
        Ok(h) => {
            law_sanitize_host_idempotent(s.remote_host);
        },
        Err(_) => {},
    }
}

/// A report of the upload worker changes at most the item it is about: the
/// queue keeps its length and every item keeps its name.
pub proof fn law_transfer_event_keeps_the_queue(s: AppView, e: TransferEventView)
    ensures
        spec_transfer_event(s, e).transfer_queue.len() == s.transfer_queue.len(),
        forall|i: int|
            0 <= i < s.transfer_queue.len() ==> (#[trigger] spec_transfer_event(
                s,
                e,
            ).transfer_queue[i]).name == s.transfer_queue[i].name,
{
}

/// A source directory that does not exist is neither opened nor saved: no
/// request follows and the local pane stays where it was.
pub proof fn law_missing_source_dir_is_not_taken(s: AppView)
    requires
        s.resume matches Some(ResumeView::AfterDirCheck(_)),
    ensures
        spec_local_dir_checked(s, false).1 is None,
        spec_local_dir_checked(s, false).0.local_cwd == s.local_cwd,
        spec_local_dir_checked(s, false).0.input_mode == s.input_mode,
{
}

/// A finished upload sets its own item of the queue (1-based index inside
/// the queue) to done when scp succeeded and to failed when it did not,
/// with the worker's message; no other item changes.
pub proof fn law_finished_report_sets_done_or_failed(
    s: AppView,
    path: Seq<char>,
    index: usize,
    total: usize,
    success: bool,
    message: Seq<char>,
    bytes_sent: Option<u64>,
    bytes_total: Option<u64>,
    elapsed_secs: u64,
)
    requires
        1 <= index <= s.transfer_queue.len(),
    ensures
        ({
            let t = spec_transfer_event(
                s,
                TransferEventView::Finished {
                    path,
                    index,
                    total,
                    success,
                    message,
                    bytes_sent,
                    bytes_total,
                    elapsed_secs,
                },
            ).transfer_queue;
            &&& t.len() == s.transfer_queue.len()
            &&& success ==> t[index - 1].status == UploadStatus::Done
            &&& !success ==> t[index - 1].status == UploadStatus::Failed
            &&& t[index - 1].message == Some(message)
            &&& t[index - 1].name == s.transfer_queue[index - 1].name
            &&& forall|i: int| 0 <= i < t.len() && i != index - 1 ==> t[i] == s.transfer_queue[i]
        }),
{
}

/// The other reports of the worker on an item inside the queue: a start
/// and a progress report make it active, a skip makes it canceled; the end
/// of the queue leaves the queue as it is. No other item changes.
pub proof fn law_report_sets_item_state(s: AppView, e: TransferEventView)
    ensures
        spec_transfer_event(s, e).transfer_queue.len() == s.transfer_queue.len(),
        e is Complete ==> spec_transfer_event(s, e).transfer_queue == s.transfer_queue,
        match e {
            TransferEventView::Started { index, .. } => item_set(s.transfer_queue, spec_transfer_event(s, e).transfer_queue, index, UploadStatus::Active),
            TransferEventView::Progress { index, .. } => item_set(s.transfer_queue, spec_transfer_event(s, e).transfer_queue, index, UploadStatus::Active),
            TransferEventView::Canceled { index, .. } => item_set(s.transfer_queue, spec_transfer_event(s, e).transfer_queue, index, UploadStatus::Canceled),
            _ => true,
        },
{
}

/// After a report on the item at 1-based `index` inside the queue `q`,
/// that item of `t` has `status` and every other item is as it was.
pub open spec fn item_set(q: Seq<UploadItemView>, t: Seq<UploadItemView>, index: usize, status: UploadStatus) -> bool {
    1 <= index <= q.len() ==> {
        &&& t[index - 1].status == status
        &&& forall|i: int| 0 <= i < q.len() && i != index - 1 ==> t[i] == q[i]
    }
}

/// Accepting a typed remote path that checks out as `p` moves the remote
/// pane to `p`: in the setup it becomes the saved remote path; otherwise,
/// with a usable host and no listing under way, the remote side is listed
/// at `p`. A refused path leaves the remote pane where it was and the input
/// line open.
pub proof fn law_commit_remote_path(s: AppView)
    requires
        s.input_mode == InputMode::EditingRemotePath,
    ensures
        spec_commit_input(s).1 is None,
        spec_sanitize_remote_path(trim_ws(s.input_buffer)) matches Ok(p) ==> {
            &&& spec_commit_input(s).0.remote_cwd == p
            &&& (s.init_step != Some(InitStep::RemotePath) && !s.remote_loading
                && spec_sanitize_host(s.remote_host) is Ok) ==> spec_commit_input(s).0.outbox
                == s.outbox.push(
                CommandView::ListRemote { host: spec_sanitize_host(s.remote_host)->Ok_0, path: p },
            )
        },
        spec_sanitize_remote_path(trim_ws(s.input_buffer)) is Err ==> {
            &&& spec_commit_input(s).0.remote_cwd == s.remote_cwd
            &&& spec_commit_input(s).0.input_mode == InputMode::EditingRemotePath
        },
{
}

/// Accepting a typed host that sanitizes to `h` makes `h` the remote host;
/// outside the setup, with no listing under way, the remote side is listed
/// on `h` at the current remote directory. A refused host leaves the host
/// as it was and the input line open.
pub proof fn law_commit_host(s: AppView)
    requires
        s.input_mode == InputMode::EditingHost,
    ensures
        spec_commit_input(s).1 is None,
        spec_sanitize_host(trim_ws(s.input_buffer)) matches Ok(h) ==> {
            &&& spec_commit_input(s).0.remote_host == h
            &&& (s.init_step != Some(InitStep::RemoteHost) && !s.remote_loading) ==> spec_commit_input(
                s,
            ).0.outbox == s.outbox.push(CommandView::ListRemote { host: h, path: s.remote_cwd })
        },
        spec_sanitize_host(trim_ws(s.input_buffer)) is Err ==> {
            &&& spec_commit_input(s).0.remote_host == s.remote_host
            &&& spec_commit_input(s).0.input_mode == InputMode::EditingHost
        },
{
    if let Ok(h) = spec_sanitize_host(trim_ws(s.input_buffer)) {
        law_sanitize_host_idempotent(trim_ws(s.input_buffer));
    }
}

/// `enter` in the local pane on a directory opens it: the pane moves to the
/// directory's path and asks for it to be read. On a file, or with nothing
/// selected, nothing changes and nothing is asked.
pub proof fn law_open_local_selected(s: AppView)
    requires
        s.active_pane == ActivePane::Local,
    ensures
        s.local_selected < s.local_entries.len() && s.local_entries[s.local_selected as int].is_dir
            ==> {
            &&& spec_open_selected(s).0.local_cwd == s.local_entries[s.local_selected as int].path
            &&& spec_open_selected(s).1 == Some(
                RequestView::ReadLocalDir(s.local_entries[s.local_selected as int].path),
            )
        },
        !(s.local_selected < s.local_entries.len() && s.local_entries[s.local_selected as int].is_dir)
            ==> spec_open_selected(s) == (s, None::<RequestView>),
{
}

} // verus!
