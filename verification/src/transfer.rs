//! The upload queue on the worker's side: which item runs next, which are
//! skipped, and the scp and ssh arguments each one needs.
use vstd::prelude::*;
use vstd::string::*;
use crate::paths::{file_name, opt_string_view, path_file_name};
use crate::remote::{
    batch_options, ensure_trailing_slash, join_posix, shell_quote, spec_ensure_trailing_slash,
    spec_join_posix, spec_shell_quote, ssh_options,
};
use crate::text::{lines, split_lines, string_of, trim, trim_ws, views};

verus! {

/// What the upload worker reports, in the order it happens.
#[derive(Debug)]
pub enum TransferEvent {
    Canceled { path: String, index: usize, total: usize },
    Started { path: String, index: usize, total: usize, bytes_total: Option<u64> },
    Progress {
        path: String,
        index: usize,
        total: usize,
        bytes_sent: Option<u64>,
        bytes_total: Option<u64>,
        elapsed_secs: u64,
    },
    Finished {
        path: String,
        index: usize,
        total: usize,
        success: bool,
        message: String,
        bytes_sent: Option<u64>,
        bytes_total: Option<u64>,
        elapsed_secs: u64,
    },
    Complete,
}

/// A worker's report as plain values.
pub enum TransferEventView {
    Canceled { path: Seq<char>, index: usize, total: usize },
    Started { path: Seq<char>, index: usize, total: usize, bytes_total: Option<u64> },
    Progress {
        path: Seq<char>,
        index: usize,
        total: usize,
        bytes_sent: Option<u64>,
        bytes_total: Option<u64>,
        elapsed_secs: u64,
    },
    Finished {
        path: Seq<char>,
        index: usize,
        total: usize,
        success: bool,
        message: Seq<char>,
        bytes_sent: Option<u64>,
        bytes_total: Option<u64>,
        elapsed_secs: u64,
    },
    Complete,
}

impl View for TransferEvent {
    type V = TransferEventView;

    open spec fn view(&self) -> TransferEventView {
        match self {
            TransferEvent::Canceled { path, index, total } => TransferEventView::Canceled {
                path: path@,
                index: *index,
                total: *total,
            },
            TransferEvent::Started { path, index, total, bytes_total } => TransferEventView::Started {
                path: path@,
                index: *index,
                total: *total,
                bytes_total: *bytes_total,
            },
            TransferEvent::Progress {
                path,
                index,
                total,
                bytes_sent,
                bytes_total,
                elapsed_secs,
            } => TransferEventView::Progress {
                path: path@,
                index: *index,
                total: *total,
                bytes_sent: *bytes_sent,
                bytes_total: *bytes_total,
                elapsed_secs: *elapsed_secs,
            },
            TransferEvent::Finished {
                path,
                index,
                total,
                success,
                message,
                bytes_sent,
                bytes_total,
                elapsed_secs,
            } => TransferEventView::Finished {
                path: path@,
                index: *index,
                total: *total,
                success: *success,
                message: message@,
                bytes_sent: *bytes_sent,
                bytes_total: *bytes_total,
                elapsed_secs: *elapsed_secs,
            },
            TransferEvent::Complete => TransferEventView::Complete,
        }
    }
}

/// What the browser asks of the upload worker: skip the item at a 1-based
/// index of the queue.
#[derive(Debug)]
pub enum TransferCommand {
    Cancel(usize),
}

/// Where scp copies to: the host, a colon, and the remote directory with a
/// trailing slash; scp takes the path as it stands, unquoted.
pub open spec fn spec_scp_destination(host: Seq<char>, remote_dir: Seq<char>) -> Seq<char> {
    host + seq![':'] + spec_ensure_trailing_slash(remote_dir)
}

/// Where an uploaded file lands: its file name under the remote directory,
/// or the remote directory itself for a path without a file name.
pub open spec fn spec_remote_target_path(remote_dir: Seq<char>, local_path: Seq<char>) -> Seq<
    char,
> {
    match path_file_name(local_path) {
        Some(name) => spec_join_posix(remote_dir, name),
        None => remote_dir,
    }
}

/// The scp destination of an upload.
pub fn scp_destination(host: &str, remote_dir: &str) -> (r: String)
    ensures
        r@ == spec_scp_destination(host@, remote_dir@),
{
    let mut r = string_of(host);
    crate::text::push_char(&mut r, ':');
    let d = ensure_trailing_slash(remote_dir);
    r.append(d.as_str());
    r
}

/// The remote path that an upload of `local_path` fills.
pub fn remote_target_path(remote_dir: &str, local_path: &str) -> (r: String)
    ensures
        r@ == spec_remote_target_path(remote_dir@, local_path@),
{
    match file_name(local_path) {
        Some(name) => join_posix(remote_dir, name.as_str()),
        None => string_of(remote_dir),
    }
}

/// The arguments of the scp call that uploads `path`, recursively, to `destination`.
pub fn scp_args(path: &str, destination: &str) -> (r: Vec<String>)
    ensures
        views(r@) == ssh_options() + seq!["-r"@, path@, destination@],
{
    let mut r = batch_options();
    let ghost before = views(r@);
    r.push(string_of("-r"));
    r.push(string_of(path));
    r.push(string_of(destination));
    assert(views(r@) =~= before + seq!["-r"@, path@, destination@]);
    r
}

/// The script that prints the size in bytes of what a remote path holds: a
/// directory's total, or a file's length.
pub open spec fn spec_remote_size_script(remote_path: Seq<char>) -> Seq<char> {
    let p = spec_shell_quote(remote_path);
    "if [ -d "@ + p + " ]; then du -sb "@ + p + " 2>/dev/null | awk '{print $1}'; elif [ -f "@ + p
        + " ]; then stat -c %s "@ + p + " 2>/dev/null; fi"@
}

/// The size script for a remote path.
pub fn remote_size_script(remote_path: &str) -> (r: String)
    ensures
        r@ == spec_remote_size_script(remote_path@),
{
    let p = shell_quote(remote_path);
    let mut r = string_of("if [ -d ");
    r.append(p.as_str());
    r.append(" ]; then du -sb ");
    r.append(p.as_str());
    r.append(" 2>/dev/null | awk '{print $1}'; elif [ -f ");
    r.append(p.as_str());
    r.append(" ]; then stat -c %s ");
    r.append(p.as_str());
    r.append(" 2>/dev/null; fi");
    r
}

pub open spec fn is_digit(c: char) -> bool {
    '0' <= c && c <= '9'
}

pub open spec fn digit_value(c: char) -> nat {
    ((c as int) - ('0' as int)) as nat
}

/// The number that a run of decimal digits writes.
pub open spec fn digits_value(d: Seq<char>) -> nat
    decreases d.len(),
{
    if d.len() == 0 {
        0
    } else {
        digits_value(d.drop_last()) * 10 + digit_value(d.last())
    }
}

pub open spec fn all_digits(d: Seq<char>) -> bool {
    forall|i: int| 0 <= i < d.len() ==> is_digit(#[trigger] d[i])
}

/// What `str::parse::<u64>` accepts: an optional `+`, then one or more
/// decimal digits whose value fits in 64 bits.
pub open spec fn spec_parse_u64(s: Seq<char>) -> Option<u64> {
    let d = if s.len() > 0 && s[0] == '+' {
        s.drop_first()
    } else {
        s
    };
    if d.len() == 0 || !all_digits(d) || digits_value(d) > u64::MAX {
        None
    } else {
        Some(digits_value(d) as u64)
    }
}

proof fn lemma_digits_prefix_le(d: Seq<char>, i: int)
    requires
        0 <= i <= d.len(),
        all_digits(d),
    ensures
        digits_value(d.subrange(0, i)) <= digits_value(d),
    decreases d.len() - i,
{
    if i < d.len() {
        lemma_digits_prefix_le(d, i + 1);
        let a = d.subrange(0, i + 1);
        assert(a.drop_last() =~= d.subrange(0, i));
        assert(digits_value(a) == digits_value(d.subrange(0, i)) * 10 + digit_value(a.last()));
    } else {
        assert(d.subrange(0, i) =~= d);
    }
}

fn digit_number(c: char) -> (v: u64)
    requires
        is_digit(c),
    ensures
        v == digit_value(c),
        v < 10,
{
    if c == '0' {
        0
    } else if c == '1' {
        1
    } else if c == '2' {
        2
    } else if c == '3' {
        3
    } else if c == '4' {
        4
    } else if c == '5' {
        5
    } else if c == '6' {
        6
    } else if c == '7' {
        7
    } else if c == '8' {
        8
    } else {
        9
    }
}

/// `str::parse::<u64>`.
#[verifier::loop_isolation(false)]
pub fn parse_u64(s: &str) -> (r: Option<u64>)
    ensures
        r == spec_parse_u64(s@),
{
    let n = s.unicode_len();
    let start: usize = if n > 0 && s.get_char(0) == '+' {
        1
    } else {
        0
    };
    let ghost d = if s@.len() > 0 && s@[0] == '+' {
        s@.drop_first()
    } else {
        s@
    };
    assert(d =~= s@.subrange(start as int, n as int));
    if start == n {
        return None;
    }
    let mut i: usize = start;
    while i < n
        invariant
            n == s@.len(),
            start <= i <= n,
            d == s@.subrange(start as int, n as int),
            forall|k: int| 0 <= k < i - start ==> is_digit(d[k]),
        decreases n - i,
    {
        let c = s.get_char(i);
        if !('0' <= c && c <= '9') {
            assert(!is_digit(d[i - start]));
            return None;
        }
        i = i + 1;
    }
    assert(all_digits(d));
    let mut acc: u64 = 0;
    let mut j: usize = start;
    assert(d.subrange(0, 0) =~= Seq::<char>::empty());
    while j < n
        invariant
            n == s@.len(),
            start <= j <= n,
            d == s@.subrange(start as int, n as int),
            all_digits(d),
            acc as nat == digits_value(d.subrange(0, j - start)),
        decreases n - j,
    {
        let c = s.get_char(j);
        assert(d[j - start] == c);
        assert(is_digit(d[j - start]));
        let v = digit_number(c);
        let ghost pre = d.subrange(0, j - start);
        let ghost next = d.subrange(0, j + 1 - start);
        proof {
            assert(next.drop_last() =~= pre);
            assert(next.last() == c);
            assert(is_digit(d[j - start]));
            assert(digits_value(next) == digits_value(pre) * 10 + digit_value(c));
        }
        if acc > (u64::MAX - v) / 10 {
            proof {
                assert(digits_value(next) > u64::MAX);
                lemma_digits_prefix_le(d, j + 1 - start);
            }
            return None;
        }
        acc = acc * 10 + v;
        j = j + 1;
    }
    assert(d.subrange(0, n - start) =~= d);
    Some(acc)
}

/// The size that the size script printed: its first line, trimmed, as a
/// number; `None` where there is no such line or it is no number.
pub open spec fn spec_parse_remote_size(stdout: Seq<char>) -> Option<u64> {
    let ls = split_lines(stdout);
    if ls.len() == 0 {
        None
    } else {
        spec_parse_u64(trim_ws(ls[0]))
    }
}

/// Reads the output of the size script.
pub fn parse_remote_size(stdout: &str) -> (r: Option<u64>)
    ensures
        r == spec_parse_remote_size(stdout@),
{
    let ls = lines(stdout);
    if ls.len() == 0 {
        return None;
    }
    proof {
        assert(views(ls@)[0] == ls@[0]@);
    }
    let t = trim(ls[0].as_str());
    parse_u64(t.as_str())
}

/// How an upload whose scp call ran to its end is reported: `uploaded` when
/// it succeeded, else what scp wrote to stderr, trimmed.
pub fn upload_outcome(exit_success: bool, stderr: &str) -> (r: (bool, String))
    ensures
        r.0 == exit_success,
        exit_success ==> r.1@ == "uploaded"@,
        !exit_success ==> r.1@ == trim_ws(stderr@),
{
    if exit_success {
        (true, string_of("uploaded"))
    } else {
        (false, trim(stderr))
    }
}

/// Adds the index of each cancel command to the set of canceled items.
pub fn drain_cancel_commands(commands: Vec<TransferCommand>, canceled: &mut Vec<usize>)
    ensures
        final(canceled)@.to_set() == old(canceled)@.to_set() + commands@.map_values(
            |c: TransferCommand| command_index(c),
        ).to_set(),
{
    let ghost start = canceled@;
    let ghost idx = commands@.map_values(|c: TransferCommand| command_index(c));
    let mut i: usize = 0;
    assert(idx.subrange(0, 0).to_set() =~= Set::<usize>::empty());
    while i < commands.len()
        invariant
            i <= commands@.len(),
            idx == commands@.map_values(|c: TransferCommand| command_index(c)),
            canceled@.to_set() == start.to_set() + idx.subrange(0, i as int).to_set(),
        decreases commands.len() - i,
    {
        let k = match &commands[i] {
            TransferCommand::Cancel(k) => *k,
        };
        let ghost before = canceled@;
        canceled.push(k);
        proof {
            assert(idx[i as int] == k);
            assert(idx.subrange(0, i + 1) =~= idx.subrange(0, i as int).push(k));
            assert(canceled@ =~= before.push(k));
            before.lemma_push_to_set_commute(k);
            idx.subrange(0, i as int).lemma_push_to_set_commute(k);
            assert(canceled@.to_set() =~= start.to_set() + idx.subrange(0, i + 1).to_set());
        }
        i = i + 1;
    }
    assert(idx.subrange(0, commands@.len() as int) =~= idx);
}

pub open spec fn command_index(c: TransferCommand) -> usize {
    match c {
        TransferCommand::Cancel(k) => k,
    }
}

/// The worker's next move.
#[derive(Debug)]
pub enum WorkerStep {
    /// Skip the item at this 1-based index: it was canceled before its turn.
    Skip { index: usize, total: usize },
    /// Upload the item at this 1-based index.
    Upload { index: usize, total: usize },
    /// Every item has had its turn.
    Complete,
}

/// The upload worker's progress through its queue: items go one at a time,
/// in order.
pub struct UploadWorker {
    total: usize,
    done: usize,
    canceled: Vec<usize>,
}

/// The worker as plain values: the number of items, the number that have
/// had their turn, and the 1-based indices canceled so far.
pub struct WorkerView {
    pub total: nat,
    pub done: nat,
    pub canceled: Set<usize>,
}

impl View for UploadWorker {
    type V = WorkerView;

    closed spec fn view(&self) -> WorkerView {
        WorkerView { total: self.total as nat, done: self.done as nat, canceled: self.canceled@.to_set() }
    }
}

/// The 1-based indices named by a batch of commands.
pub open spec fn command_batch(commands: Seq<TransferCommand>) -> Set<usize> {
    commands.map_values(|c: TransferCommand| command_index(c)).to_set()
}

/// The move for the item after the first `pos` ones, given the canceled
/// indices: past the last item the queue is complete; otherwise the item at
/// 1-based index `pos + 1` is skipped if it was canceled, uploaded if not.
pub open spec fn step_at(total: nat, pos: nat, canceled: Set<usize>) -> WorkerStep {
    if pos >= total {
        WorkerStep::Complete
    } else if canceled.contains((pos + 1) as usize) {
        WorkerStep::Skip { index: (pos + 1) as usize, total: total as usize }
    } else {
        WorkerStep::Upload { index: (pos + 1) as usize, total: total as usize }
    }
}

/// A batch of cancels noted while an item is under way.
pub open spec fn spec_record(w: WorkerView, batch: Set<usize>) -> WorkerView {
    WorkerView { canceled: w.canceled + batch, ..w }
}

/// One step: the batch is noted, then the next item gets its turn.
pub open spec fn spec_next_step(w: WorkerView, batch: Set<usize>) -> (WorkerView, WorkerStep) {
    let c = w.canceled + batch;
    let done = if w.done < w.total {
        w.done + 1
    } else {
        w.done
    };
    (WorkerView { done, canceled: c, ..w }, step_at(w.total, w.done, c))
}

/// The moves of a worker over a run of steps, one batch of cancels noted
/// before each.
pub open spec fn spec_run(w: WorkerView, batches: Seq<Set<usize>>) -> Seq<WorkerStep>
    decreases batches.len(),
{
    if batches.len() == 0 {
        Seq::empty()
    } else {
        let (w2, st) = spec_next_step(w, batches[0]);
        seq![st] + spec_run(w2, batches.drop_first())
    }
}

/// The indices canceled in one of the first `k + 1` batches.
pub open spec fn canceled_by(batches: Seq<Set<usize>>, k: int) -> Set<usize> {
    Set::new(|i: usize| exists|j: int| 0 <= j <= k && j < batches.len() && #[trigger] batches[j].contains(i))
}

impl UploadWorker {
    pub closed spec fn wf(&self) -> bool {
        self.done <= self.total
    }

    /// A worker for a queue of `total` items, none of them started.
    pub fn new(total: usize) -> (w: UploadWorker)
        ensures
            w.wf(),
            w@ == (WorkerView { total: total as nat, done: 0, canceled: Set::empty() }),
    {
        let w = UploadWorker { total, done: 0, canceled: Vec::new() };
        assert(w.canceled@.to_set() =~= Set::<usize>::empty());
        w
    }

    /// Takes note of cancel commands that arrived.
    pub fn record(&mut self, commands: Vec<TransferCommand>)
        requires
            old(self).wf(),
        ensures
            final(self).wf(),
            final(self)@ == spec_record(old(self)@, command_batch(commands@)),
    {
        drain_cancel_commands(commands, &mut self.canceled);
    }

    /// Takes note of the cancel commands that arrived, then gives the next
    /// item its turn: it is skipped if it was canceled, uploaded otherwise.
    /// After the last item the queue is complete.
    #[verifier::loop_isolation(false)]
    pub fn next_step(&mut self, commands: Vec<TransferCommand>) -> (step: WorkerStep)
        requires
            old(self).wf(),
        ensures
            final(self).wf(),
            (final(self)@, step) == spec_next_step(old(self)@, command_batch(commands@)),
    {
        drain_cancel_commands(commands, &mut self.canceled);
        if self.done == self.total {
            return WorkerStep::Complete;
        }
        self.done = self.done + 1;
        let index = self.done;
        let mut i: usize = 0;
        while i < self.canceled.len()
            invariant
                i <= self.canceled@.len(),
                forall|k: int| 0 <= k < i ==> self.canceled@[k] != index,
            decreases self.canceled.len() - i,
        {
            if self.canceled[i] == index {
                assert(self.canceled@.to_set().contains(index));
                return WorkerStep::Skip { index, total: self.total };
            }
            i = i + 1;
        }
        assert(!self.canceled@.to_set().contains(index));
        WorkerStep::Upload { index, total: self.total }
    }
}

/// Cancels noted by `record` while an item is under way count as if they
/// had come with the next step.
pub proof fn law_record_joins_next_step(w: WorkerView, during: Set<usize>, batch: Set<usize>)
    ensures
        spec_next_step(spec_record(w, during), batch) == spec_next_step(w, during + batch),
{
    assert(w.canceled + during + batch =~= w.canceled + (during + batch));
}

proof fn lemma_run_len(w: WorkerView, batches: Seq<Set<usize>>)
    ensures
        spec_run(w, batches).len() == batches.len(),
    decreases batches.len(),
{
    if batches.len() > 0 {
        let (w2, st) = spec_next_step(w, batches[0]);
        lemma_run_len(w2, batches.drop_first());
    }
}

proof fn lemma_run_at(w: WorkerView, batches: Seq<Set<usize>>, k: int)
    requires
        0 <= k < batches.len(),
        w.done <= w.total,
    ensures
        spec_run(w, batches)[k] == step_at(w.total, (w.done + k) as nat, w.canceled + canceled_by(batches, k)),
    decreases k,
{
    let (w2, st) = spec_next_step(w, batches[0]);
    assert(spec_run(w, batches)[0] == st);
    if k == 0 {
        assert(canceled_by(batches, 0) =~= batches[0]) by {
            assert forall|i: usize| batches[0].contains(i) implies canceled_by(batches, 0).contains(i) by {
                assert(batches[0].contains(i));
            }
        }
    } else {
        let rest = batches.drop_first();
        lemma_run_at(w2, rest, k - 1);
        lemma_run_len(w2, rest);
        assert(spec_run(w, batches)[k] == spec_run(w2, rest)[k - 1]);
        assert(w2.canceled + canceled_by(rest, k - 1) =~= w.canceled + canceled_by(batches, k)) by {
            assert forall|i: usize| canceled_by(batches, k).contains(i) implies (batches[0] + canceled_by(
                rest,
                k - 1,
            )).contains(i) by {
                let j = choose|j: int| 0 <= j <= k && j < batches.len() && #[trigger] batches[j].contains(i);
                if j > 0 {
                    assert(rest[j - 1] == batches[j]);
                    assert(canceled_by(rest, k - 1).contains(i));
                }
            }
            assert forall|i: usize| canceled_by(rest, k - 1).contains(i) implies canceled_by(
                batches,
                k,
            ).contains(i) by {
                let j = choose|j: int| 0 <= j <= k - 1 && j < rest.len() && #[trigger] rest[j].contains(i);
                assert(batches[j + 1] == rest[j]);
            }
            assert forall|i: usize| batches[0].contains(i) implies canceled_by(batches, k).contains(i) by {
                assert(batches[0].contains(i));
            }
        }
    }
}

/// A whole upload run, from a fresh worker for `total` items and one batch
/// of cancels noted before each step: the items get their turns strictly in
/// order, the `k`-th step (from 0) giving the turn to the item at 1-based
/// index `k + 1`, each exactly once, and every step after the last item is
/// `Complete`. An item is skipped exactly when its index was canceled in one
/// of the batches noted before its turn; a cancel that comes after an item's
/// turn does not touch it, and an index outside `1..=total` skips nothing.
pub proof fn law_upload_run(total: usize, batches: Seq<Set<usize>>, k: int)
    requires
        0 <= k < batches.len(),
    ensures
        spec_run(WorkerView { total: total as nat, done: 0, canceled: Set::empty() }, batches)[k] == (if k
            < total {
            if canceled_by(batches, k).contains((k + 1) as usize) {
                WorkerStep::Skip { index: (k + 1) as usize, total }
            } else {
                WorkerStep::Upload { index: (k + 1) as usize, total }
            }
        } else {
            WorkerStep::Complete
        }),
{
    let w = WorkerView { total: total as nat, done: 0, canceled: Set::empty() };
    lemma_run_at(w, batches, k);
    assert(w.canceled + canceled_by(batches, k) =~= canceled_by(batches, k));
}

} // verus!
