use transit::app::{StatusAction, TransferStatus, UploadQueueItem, UploadStatus};
use transit::local::format_size;
use transit::status::{status_text, upload_item_line};

fn item(
    status: UploadStatus,
    sent: Option<u64>,
    total: Option<u64>,
    message: Option<&str>,
) -> UploadQueueItem {
    UploadQueueItem {
        name: "movie.mkv".to_string(),
        status,
        bytes_sent: sent,
        bytes_total: total,
        elapsed_secs: 12,
        message: message.map(|m| m.to_string()),
    }
}

fn percent(sent: Option<u64>, total: Option<u64>) -> f64 {
    match (sent, total) {
        (Some(s), Some(t)) if t > 0 => s.min(t) as f64 / t as f64 * 100.0,
        _ => 0.0,
    }
}

fn expected_item_line(item: &UploadQueueItem, label: &str) -> String {
    let progress = match (item.bytes_sent, item.bytes_total) {
        (Some(sent), Some(total)) if total > 0 => {
            let sent = sent.min(total);
            let percent = sent as f64 / total as f64 * 100.0;
            format!(
                "{percent:>5.1}% {} / {}",
                format_size(Some(sent)),
                format_size(Some(total))
            )
        }
        (_, Some(total)) if total > 0 => format!("{} total", format_size(Some(total))),
        _ => "size unknown".to_string(),
    };
    let message = item
        .message
        .as_ref()
        .map(|message| format!(" - {message}"))
        .unwrap_or_default();
    format!("[{label}] {} ({progress}, {}s){message}", item.name, item.elapsed_secs)
}

fn line(item: &UploadQueueItem) -> String {
    let p = percent(item.bytes_sent, item.bytes_total);
    upload_item_line(item, &format!("{p:>5.1}"))
}

#[test]
fn queue_lines_show_state_progress_and_message() {
    let a = item(UploadStatus::Active, Some(512), Some(2048), None);
    assert_eq!(line(&a), "[active] movie.mkv ( 25.0% 512 B / 2.0 KB, 12s)");
    let cases = [
        (item(UploadStatus::Queued, None, None, None), "queued"),
        (item(UploadStatus::Done, Some(4096), Some(2048), None), "done"),
        (item(UploadStatus::Failed, None, Some(2048), Some("scp exited with 1")), "failed"),
        (item(UploadStatus::Canceled, Some(3), Some(0), Some("canceled")), "canceled"),
        (a, "active"),
    ];
    for (i, label) in cases.iter() {
        assert_eq!(line(i), expected_item_line(i, label));
    }
}

fn status(sent: Option<u64>, total: Option<u64>) -> TransferStatus {
    TransferStatus::Progress {
        action: StatusAction::Uploading,
        index: 2,
        total: 3,
        name: "movie.mkv".to_string(),
        bytes_sent: sent,
        bytes_total: total,
        elapsed_secs: 7,
    }
}

fn text(s: &TransferStatus) -> String {
    let p = match s {
        TransferStatus::Progress {
            bytes_sent,
            bytes_total,
            ..
        } => percent(*bytes_sent, *bytes_total),
        _ => 0.0,
    };
    status_text(s, &format!("{p:.1}"))
}

#[test]
fn status_line_for_each_report() {
    assert_eq!(
        text(&status(Some(1024), Some(4096))),
        "Uploading 2/3: movie.mkv - 25.0% (1.0 KB / 4.0 KB, 7s)"
    );
    assert_eq!(
        text(&status(None, Some(4096))),
        "Uploading 2/3: movie.mkv (4.0 KB total, 7s)"
    );
    assert_eq!(text(&status(Some(5), Some(0))), "Uploading 2/3: movie.mkv (7s)");
    assert_eq!(text(&status(None, None)), "Uploading 2/3: movie.mkv (7s)");
    let done = TransferStatus::Progress {
        action: StatusAction::Done,
        index: 3,
        total: 3,
        name: "a".to_string(),
        bytes_sent: Some(10),
        bytes_total: Some(3),
        elapsed_secs: 0,
    };
    assert_eq!(text(&done), "Done 3/3: a - 100.0% (3 B / 3 B, 0s)");
    let failed = TransferStatus::Progress {
        action: StatusAction::Failed,
        index: 1,
        total: 1,
        name: "b".to_string(),
        bytes_sent: None,
        bytes_total: None,
        elapsed_secs: 4,
    };
    assert_eq!(text(&failed), "Failed 1/1: b (4s)");
    let canceled = TransferStatus::Canceled { index: 1, total: 4, name: "c".to_string() };
    assert_eq!(text(&canceled), "Canceled 1/4: c");
    assert_eq!(text(&TransferStatus::Complete), "Transfer complete.");
}
