//! The text of the transfer page: the line of each queued upload and the
//! status line. The one part that needs floating point, the percentage sent,
//! is formatted by the caller and handed in as text.
use vstd::prelude::*;
use vstd::string::*;
use crate::app::{
    StatusAction, TransferStatus, TransferStatusView, UploadItemView, UploadQueueItem,
    spec_status_label, upload_status_label,
};
use crate::local::{format_size, spec_format_size};
use crate::text::{decimal, string_of, u64_to_string, usize_to_string};

verus! {

/// Whether the sizes give a percentage: both known, and the total not zero.
pub open spec fn has_percentage(sent: Option<u64>, total: Option<u64>) -> bool {
    sent is Some && total is Some && total->0 > 0
}

/// The bytes sent, never more than the total.
pub open spec fn capped(sent: u64, total: u64) -> u64 {
    if sent < total {
        sent
    } else {
        total
    }
}

/// The size part of a queue line: `percent` then the sent and total sizes
/// where there is a percentage, else the total size where it is known and
/// not zero, else `size unknown`.
pub open spec fn spec_progress_text(sent: Option<u64>, total: Option<u64>, percent: Seq<char>) -> Seq<
    char,
> {
    if has_percentage(sent, total) {
        percent + "% "@ + spec_format_size(Some(capped(sent->0, total->0))) + " / "@
            + spec_format_size(total)
    } else if total is Some && total->0 > 0 {
        spec_format_size(total) + " total"@
    } else {
        "size unknown"@
    }
}

/// The line of one queued upload: its state, its name, the size part, the
/// seconds spent, and its message where it has one. `percent` is the
/// percentage sent, formatted right-aligned to 5 characters with one
/// decimal; it is used only where the sizes give one.
pub open spec fn spec_upload_item_line(item: UploadItemView, percent: Seq<char>) -> Seq<char> {
    let message = match item.message {
        Some(m) => " - "@ + m,
        None => Seq::empty(),
    };
    "["@ + spec_status_label(item.status) + "] "@ + item.name + " ("@ + spec_progress_text(
        item.bytes_sent,
        item.bytes_total,
        percent,
    ) + ", "@ + decimal(item.elapsed_secs as nat) + "s)"@ + message
}

fn progress_text(sent: Option<u64>, total: Option<u64>, percent: &str) -> (r: String)
    ensures
        r@ == spec_progress_text(sent, total, percent@),
{
    match (sent, total) {
        (Some(s), Some(t)) => {
            if t > 0 {
                let c = if s < t {
                    s
                } else {
                    t
                };
                let mut r = string_of(percent);
                r.append("% ");
                r.append(format_size(Some(c)).as_str());
                r.append(" / ");
                r.append(format_size(Some(t)).as_str());
                return r;
            }
        },
        (None, Some(t)) => {
            if t > 0 {
                let mut r = format_size(Some(t));
                r.append(" total");
                return r;
            }
        },
        _ => {},
    }
    string_of("size unknown")
}

/// The text of a queue line, `percent` being the percentage sent as the
/// caller formats it.
pub fn upload_item_line(item: &UploadQueueItem, percent: &str) -> (r: String)
    ensures
        r@ == spec_upload_item_line(item@, percent@),
{
    let mut r = string_of("[");
    r.append(upload_status_label(item.status));
    r.append("] ");
    r.append(item.name.as_str());
    r.append(" (");
    r.append(progress_text(item.bytes_sent, item.bytes_total, percent).as_str());
    r.append(", ");
    r.append(u64_to_string(item.elapsed_secs).as_str());
    r.append("s)");
    match &item.message {
        Some(m) => {
            r.append(" - ");
            r.append(m.as_str());
        },
        None => {},
    }
    r
}

/// The word that starts a progress status line.
pub open spec fn spec_action_word(action: StatusAction) -> Seq<char> {
    match action {
        StatusAction::Uploading => "Uploading"@,
        StatusAction::Done => "Done"@,
        StatusAction::Failed => "Failed"@,
    }
}

/// The status line of the transfer page. For a progress report: the action,
/// `index/total`, the name, then the percentage and both sizes where the
/// sizes give a percentage, else the total size where it is known and not
/// zero, and the seconds spent. `percent` is the percentage sent, formatted
/// with one decimal; it is used only where the sizes give one.
pub open spec fn spec_status_text(status: TransferStatusView, percent: Seq<char>) -> Seq<char> {
    match status {
        TransferStatusView::Canceled { index, total, name } => "Canceled "@ + decimal(index as nat)
            + "/"@ + decimal(total as nat) + ": "@ + name,
        TransferStatusView::Progress {
            action,
            index,
            total,
            name,
            bytes_sent,
            bytes_total,
            elapsed_secs,
        } => {
            let head = spec_action_word(action) + " "@ + decimal(index as nat) + "/"@ + decimal(
                total as nat,
            ) + ": "@ + name;
            let secs = decimal(elapsed_secs as nat) + "s)"@;
            if has_percentage(bytes_sent, bytes_total) {
                head + " - "@ + percent + "% ("@ + spec_format_size(
                    Some(capped(bytes_sent->0, bytes_total->0)),
                ) + " / "@ + spec_format_size(bytes_total) + ", "@ + secs
            } else if bytes_total is Some && bytes_total->0 > 0 {
                head + " ("@ + spec_format_size(bytes_total) + " total, "@ + secs
            } else {
                head + " ("@ + secs
            }
        },
        TransferStatusView::Complete => "Transfer complete."@,
    }
}

/// The text of the status line, `percent` being the percentage sent as the
/// caller formats it.
pub fn status_text(status: &TransferStatus, percent: &str) -> (r: String)
    ensures
        r@ == spec_status_text(status@, percent@),
{
    match status {
        TransferStatus::Canceled { index, total, name } => {
            let mut r = string_of("Canceled ");
            r.append(usize_to_string(*index).as_str());
            r.append("/");
            r.append(usize_to_string(*total).as_str());
            r.append(": ");
            r.append(name.as_str());
            r
        },
        TransferStatus::Progress {
            action,
            index,
            total,
            name,
            bytes_sent,
            bytes_total,
            elapsed_secs,
        } => {
            let mut r = match action {
                StatusAction::Uploading => string_of("Uploading"),
                StatusAction::Done => string_of("Done"),
                StatusAction::Failed => string_of("Failed"),
            };
            r.append(" ");
            r.append(usize_to_string(*index).as_str());
            r.append("/");
            r.append(usize_to_string(*total).as_str());
            r.append(": ");
            r.append(name.as_str());
            let secs = u64_to_string(*elapsed_secs);
            let known = match bytes_total {
                Some(t) => *t > 0,
                None => false,
            };
            if known && bytes_sent.is_some() {
                let s = bytes_sent.unwrap();
                let t = bytes_total.unwrap();
                let c = if s < t {
                    s
                } else {
                    t
                };
                r.append(" - ");
                r.append(percent);
                r.append("% (");
                r.append(format_size(Some(c)).as_str());
                r.append(" / ");
                r.append(format_size(Some(t)).as_str());
                r.append(", ");
            } else if known {
                r.append(" (");
                r.append(format_size(*bytes_total).as_str());
                r.append(" total, ");
            } else {
                r.append(" (");
            }
            r.append(secs.as_str());
            r.append("s)");
            r
        },
        TransferStatus::Complete => string_of("Transfer complete."),
    }
}

} // verus!
