//! Records shown by the mail views, and the shortening of long texts for display.
use vstd::prelude::*;
use vstd::string::StringSliceAdditionalSpecFns;
use vstd::utf8::{decode_utf8, encode_utf8_decode_utf8, is_char_boundary};

use crate::domain::{EmailId, ThreadId};
use crate::text::push_char;

verus! {

/// A thread as one row of the message list.
#[derive(Debug, Clone)]
pub struct ThreadListItem {
    pub id: ThreadId,
    pub subject: String,
    pub sender_name: String,
    pub sender_email: String,
    pub snippet: String,
    pub timestamp: String,
    pub is_unread: bool,
    pub is_starred: bool,
    pub message_count: u32,
    pub has_attachments: bool,
}

/// A thread with its messages, as the reading pane shows it.
#[derive(Debug, Clone)]
pub struct ThreadDetail {
    pub id: ThreadId,
    pub subject: String,
    pub messages: Vec<MessageDetail>,
    pub labels: Vec<String>,
}

/// One message of a thread.
#[derive(Debug, Clone)]
pub struct MessageDetail {
    pub id: EmailId,
    pub sender_name: String,
    pub sender_email: String,
    pub recipients: Vec<String>,
    pub timestamp: String,
    pub body_text: String,
    pub body_html: Option<String>,
    pub attachments: Vec<AttachmentInfo>,
    pub is_unread: bool,
}

/// An attachment of a message.
#[derive(Debug, Clone)]
pub struct AttachmentInfo {
    pub id: String,
    pub filename: String,
    pub size_bytes: u64,
    pub content_type: String,
}

/// `text` as is where its UTF-8 encoding has at most `max_len` bytes; else its
/// first `max_len` bytes followed by "...". The cut must fall on a character
/// boundary.
pub fn truncate_text(text: &str, max_len: usize) -> (r: String)
    requires
        text.spec_bytes().len() <= max_len || is_char_boundary(text.spec_bytes(), max_len as int),
    ensures
        text.spec_bytes().len() <= max_len ==> r@ == text@,
        text.spec_bytes().len() > max_len ==> r@ == decode_utf8(text.spec_bytes().take(max_len as int))
            + "..."@,
{
    let n = text.as_bytes().len();
    if n <= max_len {
        text.to_owned()
    } else {
        let (head, _) = text.split_at(max_len);
        proof {
            encode_utf8_decode_utf8(head@);
            assert(head.spec_bytes() =~= text.spec_bytes().take(max_len as int));
            assert(decode_utf8(head.spec_bytes()) == head@);
            reveal_strlit("...");
        }
        let mut r = head.to_owned();
        push_char(&mut r, '.');
        push_char(&mut r, '.');
        push_char(&mut r, '.');
        assert(r@ =~= head@ + "..."@);
        assert(r@ == decode_utf8(text.spec_bytes().take(max_len as int)) + "..."@);
        r
    }
}

/// How long a notice stays up, in milliseconds.
pub const TOAST_LIFETIME_MS: u64 = 5_000;

/// A short notice, possibly with an undo button.
#[derive(Debug, Clone)]
pub struct Toast {
    pub message: String,
    pub can_undo: bool,
    /// When it was shown, in milliseconds since the Unix epoch.
    pub created_at: u64,
}

impl Toast {
    /// A notice shown at `now_ms`.
    pub fn new(message: &str, can_undo: bool, now_ms: u64) -> (r: Self)
        ensures
            r.message@ == message@,
            r.can_undo == can_undo,
            r.created_at == now_ms,
    {
        Toast { message: message.to_owned(), can_undo, created_at: now_ms }
    }

    /// Whether more than `TOAST_LIFETIME_MS` has passed since it was shown, at
    /// `now_ms`.
    pub fn is_expired(&self, now_ms: u64) -> (r: bool)
        ensures
            r == (now_ms > self.created_at && now_ms - self.created_at > TOAST_LIFETIME_MS),
    {
        now_ms.saturating_sub(self.created_at) > TOAST_LIFETIME_MS
    }
}

} // verus!
