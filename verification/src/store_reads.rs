//! Direct-store read path, not wired: every read reports that it is not
//! available. The views take what was read as an argument, so they do not
//! depend on which read path produced it.

use crate::handler::HandlerState;
use crate::text::owned;
use vstd::prelude::*;

verus! {

/// One registered mailbox.
pub struct MailboxSummary {
    pub address: String,
}

/// One line of an inbox listing.
pub struct InboxMessage {
    pub id: String,
    pub from: String,
    pub subject: String,
    pub received_at: u64,
}

/// A whole message.
pub struct MessageFull {
    pub id: String,
    pub from: String,
    pub to: String,
    pub subject: String,
    pub body: String,
    pub received_at: u64,
}

/// The error every read of this path reports.
pub open spec fn not_wired() -> Seq<char> {
    "read path not yet wired — see DESIGN.md §3"@
}

/// Lists the mailboxes: not available on this path.
pub fn list_mailboxes(_state: &HandlerState) -> (r: Result<Vec<MailboxSummary>, String>)
    ensures
        r matches Err(e) && e@ == not_wired(),
{
    Err(owned("read path not yet wired — see DESIGN.md §3"))
}

/// Lists a mailbox's inbox: not available on this path.
pub fn list_inbox(_state: &HandlerState, _addr: &str) -> (r: Result<Vec<InboxMessage>, String>)
    ensures
        r matches Err(e) && e@ == not_wired(),
{
    Err(owned("read path not yet wired — see DESIGN.md §3"))
}

/// Reads one message: not available on this path.
pub fn get_message(_state: &HandlerState, _addr: &str, _id: &str) -> (r: Result<MessageFull, String>)
    ensures
        r matches Err(e) && e@ == not_wired(),
{
    Err(owned("read path not yet wired — see DESIGN.md §3"))
}

} // verus!
