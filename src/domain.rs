//! Identities of mail items.
use vstd::prelude::*;

verus! {

/// Identity of one email.
pub type EmailId = String;

/// Identity of a thread of emails.
pub type ThreadId = String;

/// Identity of a mail account.
pub type AccountId = String;

/// Identity of a label or folder.
pub type LabelId = String;

} // verus!
