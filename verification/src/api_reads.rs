//! Read path: the mailbox list, one mailbox's inbox, and one message, as
//! the inbox API serves them. There is no single-message endpoint: a
//! message is looked up in its mailbox's inbox listing.
//!
//! The caller makes the `GET`s and decodes the JSON replies; the library
//! says which paths to read, checks the status, and turns the decoded
//! listings into what the views show.

use crate::request::{url_encode, url_encoded};
use crate::text::{chars_of, decimal, decimal_string, owned, parse_unsigned, parse_unsigned_exec, push_decimal, push_str};
use crate::write_api::ApiResponse;
use vstd::prelude::*;

verus! {

/// One line of an inbox listing.
pub struct InboxMessage {
    pub id: String,
    pub from: String,
    pub subject: String,
    pub received_at: u64,
}

/// What the mailbox list previews of a mailbox.
pub enum Preview {
    /// The latest message of the mailbox.
    Latest(InboxMessage),
    /// The mailbox has no message.
    Empty,
    /// The mailbox's inbox could not be read.
    Unavailable,
}

/// One registered mailbox, with a preview of its latest message.
pub struct MailboxSummary {
    pub address: String,
    pub preview: Preview,
}

/// A whole message.
pub struct MessageFull {
    pub id: String,
    pub from: String,
    pub to: String,
    pub subject: String,
    pub body: String,
    pub received_at: u64,
}

/// A message as the inbox listing of the API gives it.
pub struct ApiInboxMessage {
    pub id: u64,
    pub from: String,
    pub to: String,
    pub subject: String,
    pub body: String,
    pub received_at: u64,
}

/// A message, as sequences.
pub struct MessageModel {
    pub id: Seq<char>,
    pub from: Seq<char>,
    pub to: Seq<char>,
    pub subject: Seq<char>,
    pub body: Seq<char>,
    pub received_at: u64,
}

impl View for MessageFull {
    type V = MessageModel;

    open spec fn view(&self) -> MessageModel {
        MessageModel {
            id: self.id@,
            from: self.from@,
            to: self.to@,
            subject: self.subject@,
            body: self.body@,
            received_at: self.received_at,
        }
    }
}

/// The whole message for a message of the listing: its id in decimal.
pub open spec fn full_message(m: ApiInboxMessage) -> MessageModel {
    MessageModel {
        id: decimal(m.id as nat),
        from: m.from@,
        to: m.to@,
        subject: m.subject@,
        body: m.body@,
        received_at: m.received_at,
    }
}

/// The listing line for a message of the listing.
pub open spec fn listed(m: ApiInboxMessage, line: InboxMessage) -> bool {
    &&& line.id@ == decimal(m.id as nat)
    &&& line.from@ == m.from@
    &&& line.subject@ == m.subject@
    &&& line.received_at == m.received_at
}

/// The API path that lists the mailboxes.
pub const MAILBOXES_PATH: &'static str = "/v1/mailboxes";

/// The API path of a mailbox's inbox listing.
pub open spec fn inbox_path_of(addr: Seq<char>) -> Seq<char> {
    "/v1/mailboxes/"@ + url_encoded(addr) + "/inbox"@
}

/// The API path of a mailbox's inbox listing.
pub fn inbox_path(addr: &str) -> (r: String)
    ensures
        r@ == inbox_path_of(addr@),
{
    let mut p = owned("/v1/mailboxes/");
    let enc = url_encode(addr);
    push_str(&mut p, enc.as_str());
    push_str(&mut p, "/inbox");
    p
}

/// The body of a `200` reply; any other status is an error that quotes it.
pub fn expect_ok(resp: ApiResponse) -> (r: Result<String, String>)
    ensures
        resp.status == 200 ==> (r matches Ok(b) && b@ == resp.body@),
        resp.status != 200 ==> (r matches Err(e) && e@ == "api returned "@ + decimal(
            resp.status as nat,
        ) + ": "@ + resp.body@),
{
    if resp.status != 200 {
        let mut e = owned("api returned ");
        push_decimal(&mut e, resp.status as u64);
        push_str(&mut e, ": ");
        push_str(&mut e, resp.body.as_str());
        Err(e)
    } else {
        Ok(resp.body)
    }
}

/// Message `i` is the latest of the listing: none was received later, and
/// none before it in the listing was received at the same time.
pub open spec fn latest_at(ms: Seq<ApiInboxMessage>, i: int) -> bool {
    &&& 0 <= i < ms.len()
    &&& forall|j: int| 0 <= j < ms.len() ==> #[trigger] ms[j].received_at <= ms[i].received_at
    &&& forall|j: int| 0 <= j < i ==> #[trigger] ms[j].received_at < ms[i].received_at
}

/// The preview of a mailbox whose inbox read gave `inbox`: its latest
/// message, `Empty` for an empty inbox, `Unavailable` when the read failed.
pub open spec fn previews(inbox: Result<Seq<ApiInboxMessage>, Seq<char>>, p: Preview) -> bool {
    match inbox {
        Ok(ms) => if ms.len() == 0 {
            p is Empty
        } else {
            p matches Preview::Latest(line) && exists|i: int| #[trigger] latest_at(ms, i) && listed(ms[i], line)
        },
        Err(_) => p is Unavailable,
    }
}

/// The inbox read of one mailbox, as sequences.
pub open spec fn inbox_read(r: Result<Vec<ApiInboxMessage>, String>) -> Result<Seq<ApiInboxMessage>, Seq<char>> {
    match r {
        Ok(v) => Ok(v@),
        Err(e) => Err(e@),
    }
}

/// Where the latest message of a listing stands, `None` for an empty one.
pub fn latest_index(messages: &Vec<ApiInboxMessage>) -> (r: Option<usize>)
    ensures
        match r {
            Some(i) => latest_at(messages@, i as int),
            None => messages.len() == 0,
        },
{
    if messages.len() == 0 {
        return None;
    }
    let mut best: usize = 0;
    let mut i: usize = 1;
    while i < messages.len()
        invariant
            1 <= i <= messages.len(),
            best < i,
            forall|j: int| 0 <= j < i ==> #[trigger] messages@[j].received_at <= messages@[best as int].received_at,
            forall|j: int| 0 <= j < best ==> #[trigger] messages@[j].received_at < messages@[best as int].received_at,
        decreases messages.len() - i,
    {
        if messages[i].received_at > messages[best].received_at {
            best = i;
        }
        i = i + 1;
    }
    Some(best)
}

/// The listing line of a message.
fn line_of(m: &ApiInboxMessage) -> (r: InboxMessage)
    ensures
        listed(*m, r),
{
    InboxMessage {
        id: decimal_string(m.id),
        from: m.from.clone(),
        subject: m.subject.clone(),
        received_at: m.received_at,
    }
}

/// The preview of a mailbox from the read of its inbox.
pub fn preview_of(inbox: &Result<Vec<ApiInboxMessage>, String>) -> (r: Preview)
    ensures
        previews(inbox_read(*inbox), r),
{
    match inbox {
        Ok(ms) => match latest_index(ms) {
            Some(i) => {
                let line = line_of(&ms[i]);
                assert(latest_at(ms@, i as int) && listed(ms@[i as int], line));
                Preview::Latest(line)
            },
            None => Preview::Empty,
        },
        Err(_) => Preview::Unavailable,
    }
}

/// The mailboxes of a decoded mailbox listing, in the listing's order, each
/// with the preview that the read of its inbox gives.
pub fn list_mailboxes(listing: Vec<(String, Result<Vec<ApiInboxMessage>, String>)>) -> (r: Vec<
    MailboxSummary,
>)
    ensures
        r.len() == listing.len(),
        forall|i: int|
            0 <= i < r.len() ==> #[trigger] r@[i].address@ == listing@[i].0@ && previews(
                inbox_read(listing@[i].1),
                r@[i].preview,
            ),
{
    let mut out: Vec<MailboxSummary> = Vec::new();
    let mut i: usize = 0;
    while i < listing.len()
        invariant
            i <= listing.len(),
            out.len() == i,
            forall|j: int|
                0 <= j < i ==> #[trigger] out@[j].address@ == listing@[j].0@ && previews(
                    inbox_read(listing@[j].1),
                    out@[j].preview,
                ),
        decreases listing.len() - i,
    {
        let entry = &listing[i];
        let preview = preview_of(&entry.1);
        out.push(MailboxSummary { address: entry.0.clone(), preview });
        i = i + 1;
    }
    out
}

/// The most messages an inbox page lists.
pub const INBOX_LIMIT: usize = 50;

/// Message `i` comes before message `j` on an inbox page: it was received
/// later, or at the same time and stands earlier in the listing.
pub open spec fn newer(ms: Seq<ApiInboxMessage>, i: int, j: int) -> bool {
    ms[i].received_at > ms[j].received_at || (ms[i].received_at == ms[j].received_at && i < j)
}

/// How many messages an inbox page of a listing of `n` shows.
pub open spec fn shown(n: nat) -> nat {
    if n < INBOX_LIMIT {
        n
    } else {
        INBOX_LIMIT as nat
    }
}

/// `idx` picks the newest messages of the listing, newest first: as many
/// as the page shows, each before the next, and every message left out
/// after every one picked.
pub open spec fn newest_first(ms: Seq<ApiInboxMessage>, idx: Seq<usize>) -> bool {
    &&& idx.len() == shown(ms.len())
    &&& forall|k: int| 0 <= k < idx.len() ==> #[trigger] idx[k] < ms.len()
    &&& forall|k: int, l: int| 0 <= k < l < idx.len() ==> newer(ms, #[trigger] idx[k] as int, #[trigger] idx[l] as int)
    &&& forall|j: int, k: int|
        0 <= j < ms.len() && 0 <= k < idx.len() && !idx.contains(j as usize) ==> #[trigger] newer(ms, idx[k] as int, j)
}

/// Index `j` is among those picked or those left.
spec fn placed(idx: Seq<usize>, rest: Seq<usize>, j: int) -> bool {
    idx.contains(j as usize) || rest.contains(j as usize)
}

/// Where the messages of an inbox page stand in the listing: the newest
/// `INBOX_LIMIT`, newest first, found by repeated selection.
pub fn newest_indices(messages: &Vec<ApiInboxMessage>) -> (idx: Vec<usize>)
    ensures
        newest_first(messages@, idx@),
{
    let ghost ms = messages@;
    let n = messages.len();
    let m = if n < INBOX_LIMIT {
        n
    } else {
        INBOX_LIMIT
    };
    let mut rest: Vec<usize> = Vec::new();
    let mut i: usize = 0;
    while i < n
        invariant
            i <= n,
            rest.len() == i,
            forall|p: int| 0 <= p < i ==> #[trigger] rest@[p] == p,
        decreases n - i,
    {
        rest.push(i);
        i = i + 1;
    }
    let mut idx: Vec<usize> = Vec::new();
    assert forall|j: int| 0 <= j < n implies #[trigger] placed(idx@, rest@, j) by {
        assert(rest@[j] == j);
    }
    while idx.len() < m
        invariant
            ms == messages@,
            n == ms.len(),
            m == shown(n as nat),
            m <= n,
            idx.len() <= m,
            idx.len() + rest.len() == n,
            forall|k: int| 0 <= k < idx.len() ==> #[trigger] idx@[k] < n,
            forall|p: int| 0 <= p < rest.len() ==> #[trigger] rest@[p] < n,
            forall|p: int, q: int| 0 <= p < q < rest.len() ==> #[trigger] rest@[p] != #[trigger] rest@[q],
            forall|j: int| 0 <= j < n ==> #[trigger] placed(idx@, rest@, j),
            forall|k: int, l: int| 0 <= k < l < idx.len() ==> newer(ms, #[trigger] idx@[k] as int, #[trigger] idx@[l] as int),
            forall|k: int, p: int|
                0 <= k < idx.len() && 0 <= p < rest.len() ==> newer(ms, #[trigger] idx@[k] as int, #[trigger] rest@[p] as int),
        decreases m - idx.len(),
    {
        let mut b: usize = 0;
        let mut p: usize = 1;
        while p < rest.len()
            invariant
                ms == messages@,
                n == ms.len(),
                0 < rest.len(),
                b < p <= rest.len(),
                forall|q: int| 0 <= q < rest.len() ==> #[trigger] rest@[q] < n,
                forall|q: int, r: int| 0 <= q < r < rest.len() ==> #[trigger] rest@[q] != #[trigger] rest@[r],
                forall|q: int| 0 <= q < p && q != b ==> newer(ms, rest@[b as int] as int, #[trigger] rest@[q] as int),
            decreases rest.len() - p,
        {
            let x = rest[p];
            let y = rest[b];
            if messages[x].received_at > messages[y].received_at || (messages[x].received_at
                == messages[y].received_at && x < y) {
                assert(newer(ms, x as int, y as int));
                b = p;
            } else {
                assert(x != y);
                assert(newer(ms, y as int, x as int));
            }
            p = p + 1;
        }
        let ghost old_rest = rest@;
        let ghost old_idx = idx@;
        let chosen = rest.remove(b);
        idx.push(chosen);
        assert(idx@ == old_idx.push(chosen));
        assert(rest@ == old_rest.remove(b as int));
        assert forall|k: int, p2: int| 0 <= k < idx.len() && 0 <= p2 < rest.len() implies newer(
            ms,
            #[trigger] idx@[k] as int,
            #[trigger] rest@[p2] as int,
        ) by {
            let q = if p2 < b { p2 } else { p2 + 1 };
            assert(rest@[p2] == old_rest[q]);
            if k < old_idx.len() {
                assert(idx@[k] == old_idx[k]);
            } else {
                assert(q != b);
            }
        }
        assert forall|k: int, l: int| 0 <= k < l < idx.len() implies newer(
            ms,
            #[trigger] idx@[k] as int,
            #[trigger] idx@[l] as int,
        ) by {
            if l < old_idx.len() {
                assert(idx@[k] == old_idx[k] && idx@[l] == old_idx[l]);
            } else {
                assert(idx@[l] == old_rest[b as int]);
                assert(idx@[k] == old_idx[k]);
            }
        }
        assert forall|j: int| 0 <= j < n implies #[trigger] placed(idx@, rest@, j) by {
            assert(placed(old_idx, old_rest, j));
            if old_idx.contains(j as usize) {
                let k = choose|k: int| 0 <= k < old_idx.len() && old_idx[k] == j as usize;
                assert(idx@[k] == j as usize);
            } else {
                assert(old_rest.contains(j as usize));
                let q = choose|q: int| 0 <= q < old_rest.len() && old_rest[q] == j as usize;
                if q == b {
                    assert(idx@[old_idx.len() as int] == j as usize);
                } else if q < b {
                    assert(rest@[q] == j as usize);
                } else {
                    assert(rest@[q - 1] == j as usize);
                }
            }
        }
        assert forall|q: int, r: int| 0 <= q < r < rest.len() implies #[trigger] rest@[q] != #[trigger] rest@[r] by {
            let q0 = if q < b { q } else { q + 1 };
            let r0 = if r < b { r } else { r + 1 };
            assert(rest@[q] == old_rest[q0] && rest@[r] == old_rest[r0]);
        }
    }
    assert forall|j: int, k: int|
        0 <= j < n && 0 <= k < idx.len() && !idx@.contains(j as usize) implies #[trigger] newer(ms, idx@[k] as int, j) by {
        assert(placed(idx@, rest@, j));
        assert(rest@.contains(j as usize));
        let q = choose|q: int| 0 <= q < rest.len() && rest@[q] == j as usize;
        assert(newer(ms, idx@[k] as int, rest@[q] as int));
    }
    idx
}

/// The lines of an inbox page, from a decoded listing: its newest
/// `INBOX_LIMIT` messages, newest first.
pub fn list_inbox(messages: Vec<ApiInboxMessage>) -> (r: Vec<InboxMessage>)
    ensures
        r.len() == shown(messages.len() as nat),
        r.len() <= INBOX_LIMIT,
        exists|idx: Seq<usize>|
            #[trigger] newest_first(messages@, idx) && forall|k: int|
                0 <= k < r.len() ==> #[trigger] listed(messages@[idx[k] as int], r@[k]),
        forall|i: int, j: int| 0 <= i < j < r.len() ==> #[trigger] r@[i].received_at >= #[trigger] r@[j].received_at,
{
    let idx = newest_indices(&messages);
    let mut out: Vec<InboxMessage> = Vec::new();
    let mut k: usize = 0;
    while k < idx.len()
        invariant
            newest_first(messages@, idx@),
            k <= idx.len(),
            out.len() == k,
            forall|j: int| 0 <= j < k ==> #[trigger] listed(messages@[idx@[j] as int], out@[j]),
        decreases idx.len() - k,
    {
        let line = line_of(&messages[idx[k]]);
        out.push(line);
        k = k + 1;
    }
    assert forall|i: int, j: int| 0 <= i < j < out.len() implies #[trigger] out@[i].received_at
        >= #[trigger] out@[j].received_at by {
        assert(listed(messages@[idx@[i] as int], out@[i]));
        assert(listed(messages@[idx@[j] as int], out@[j]));
        assert(newer(messages@, idx@[i] as int, idx@[j] as int));
    }
    out
}

/// The id of a message as a path gives it: a `u64` in decimal.
pub fn message_id(id: &str) -> (r: Result<u64, String>)
    ensures
        match parse_unsigned(id@, u64::MAX as nat) {
            Some(n) => r == Ok::<u64, String>(n as u64),
            None => r matches Err(e) && e@ == "invalid message id (not a u64): "@ + id@,
        },
{
    let v = chars_of(id);
    match parse_unsigned_exec(&v, u64::MAX) {
        Some(n) => Ok(n),
        None => {
            let mut e = owned("invalid message id (not a u64): ");
            push_str(&mut e, id);
            Err(e)
        },
    }
}

/// The first step of reading one message: the id is checked before
/// anything is fetched, and only then is the mailbox's inbox listing the
/// one read to make, since there is no single-message endpoint. Gives the
/// id as a number and the API path to read.
pub fn message_read(addr: &str, id: &str) -> (r: Result<(u64, String), String>)
    ensures
        match parse_unsigned(id@, u64::MAX as nat) {
            Some(n) => r matches Ok(p) && p.0 == n && p.1@ == inbox_path_of(addr@),
            None => r matches Err(e) && e@ == "invalid message id (not a u64): "@ + id@,
        },
{
    let want = message_id(id)?;
    Ok((want, inbox_path(addr)))
}

/// The first message with id `want` in an inbox listing, as a whole
/// message; an error naming `id` and `addr` when there is none.
pub fn get_message(addr: &str, id: &str, want: u64, messages: Vec<ApiInboxMessage>) -> (r: Result<
    MessageFull,
    String,
>)
    ensures
        match r {
            Ok(m) => exists|i: int|
                0 <= i < messages.len() && messages@[i].id == want && (forall|j: int|
                    0 <= j < i ==> messages@[j].id != want) && m@ == full_message(
                    #[trigger] messages@[i],
                ),
            Err(e) => (forall|i: int| 0 <= i < messages.len() ==> #[trigger] messages@[i].id != want)
                && e@ == "message "@ + id@ + " not found in "@ + addr@,
        },
{
    let mut i: usize = 0;
    while i < messages.len()
        invariant
            i <= messages.len(),
            forall|j: int| 0 <= j < i ==> #[trigger] messages@[j].id != want,
        decreases messages.len() - i,
    {
        if messages[i].id == want {
            let m = &messages[i];
            let full = MessageFull {
                id: decimal_string(m.id),
                from: m.from.clone(),
                to: m.to.clone(),
                subject: m.subject.clone(),
                body: m.body.clone(),
                received_at: m.received_at,
            };
            assert(full@ == full_message(messages@[i as int]));
            return Ok(full);
        }
        i = i + 1;
    }
    let mut e = owned("message ");
    push_str(&mut e, id);
    push_str(&mut e, " not found in ");
    push_str(&mut e, addr);
    Err(e)
}

} // verus!
