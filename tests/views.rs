use mail_search::views::{truncate_text, AttachmentInfo, ThreadListItem, Toast};

fn make_thread(id: &str, subject: &str, unread: bool) -> ThreadListItem {
    ThreadListItem {
        id: id.to_string(),
        subject: subject.to_string(),
        sender_name: "Test Sender".to_string(),
        sender_email: "sender@example.com".to_string(),
        snippet: "This is a test snippet...".to_string(),
        timestamp: "12:30".to_string(),
        is_unread: unread,
        is_starred: false,
        message_count: 1,
        has_attachments: false,
    }
}

#[test]
fn thread_list_item() {
    let thread = make_thread("thread-1", "Test Subject", true);
    assert_eq!(thread.subject, "Test Subject");
    assert!(thread.is_unread);
}

#[test]
fn truncate_text_short() {
    assert_eq!(truncate_text("short", 10), "short");
}

#[test]
fn truncate_text_long() {
    assert_eq!(truncate_text("this is a long text", 10), "this is a ...");
}

#[test]
fn truncate_text_exact_length_and_multibyte_cut() {
    assert_eq!(truncate_text("exactly10!", 10), "exactly10!");
    assert_eq!(truncate_text("caf\u{e9} au lait", 5), "caf\u{e9}...");
}

#[test]
fn attachment_info() {
    let attachment = AttachmentInfo {
        id: "att-1".to_string(),
        filename: "document.pdf".to_string(),
        size_bytes: 1024 * 100,
        content_type: "application/pdf".to_string(),
    };

    assert_eq!(attachment.filename, "document.pdf");
}

#[test]
fn toast_expires_after_five_seconds() {
    let toast = Toast::new("Archived", true, 1_000);
    assert_eq!(toast.message, "Archived");
    assert!(toast.can_undo);
    assert!(!toast.is_expired(1_000));
    assert!(!toast.is_expired(6_000));
    assert!(toast.is_expired(6_001));
    assert!(!toast.is_expired(0));
}
