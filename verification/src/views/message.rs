//! One message: headers, body, and a reply link that pre-fills compose.

use crate::api_reads::MessageFull;
use crate::render::{error, error_response, escape, escaped, html_response, lemma_in_page, ok_html, shell, shell_text};
use crate::request::{url_encode, url_encoded};
use crate::text::{decimal, decimal_string, push_group, lemma_occurs_after, lemma_occurs_end, occurs, owned, push_str};
use vstd::prelude::*;

verus! {

/// The target of the reply link: compose, from `addr`, to the sender, with
/// the subject prefixed by `Re: `.
pub open spec fn reply_link(addr: Seq<char>, m: MessageFull) -> Seq<char> {
    "/compose?from="@ + url_encoded(addr) + "&to="@ + url_encoded(m.from@) + "&subject="@
        + url_encoded("Re: "@ + m.subject@)
}

/// The message page, for a message of mailbox `addr`.
pub open spec fn message_page(addr: Seq<char>, m: MessageFull) -> Seq<char> {
    shell_text(m.subject@, message_content(addr, m))
}

/// The content of the message page: the subject as heading, the sender,
/// recipient and receive time, the body, and the reply link.
#[verifier::opaque]
pub open spec fn message_content(addr: Seq<char>, m: MessageFull) -> Seq<char> {
    "<article class=\"message\">"@ + ("<h1>"@ + escaped(m.subject@) + "</h1>"@)
        + "<dl class=\"headers\">"@ + ("<dt>from</dt><dd>"@ + escaped(m.from@) + "</dd>"@) + (
    "<dt>to</dt><dd>"@ + escaped(m.to@) + "</dd>"@) + ("<dt>received</dt><dd>"@ + decimal(
        m.received_at as nat,
    ) + "</dd>"@) + "</dl>"@ + ("<pre class=\"body\">"@ + escaped(m.body@) + "</pre>"@)
        + "<p class=\"actions\"><a "@ + ("href=\""@ + reply_link(addr, m) + "\">reply</a>"@)
        + "</p></article>"@
}

/// Renders message `id` of `addr`, or an error page when it could not be read.
#[verifier::spinoff_prover]
#[verifier::rlimit(60)]
pub fn render(addr: &str, id: &str, msg: Result<MessageFull, String>) -> (r: Vec<u8>)
    ensures
        match msg {
            Ok(m) => r@ == html_response(message_page(addr@, m)),
            Err(e) => r@ == error_response(500, "get message "@ + addr@ + "/"@ + id@ + ": "@ + e@),
        },
{
    let msg = match msg {
        Ok(m) => m,
        Err(e) => {
            let mut text = owned("get message ");
            push_str(&mut text, addr);
            push_str(&mut text, "/");
            push_str(&mut text, id);
            push_str(&mut text, ": ");
            push_str(&mut text, e.as_str());
            return error(500, text.as_str());
        },
    };
    let mut link = owned("/compose?from=");
    let addr_q = url_encode(addr);
    push_str(&mut link, addr_q.as_str());
    push_str(&mut link, "&to=");
    let from_q = url_encode(msg.from.as_str());
    push_str(&mut link, from_q.as_str());
    push_str(&mut link, "&subject=");
    let mut reply = owned("Re: ");
    push_str(&mut reply, msg.subject.as_str());
    let reply_q = url_encode(reply.as_str());
    push_str(&mut link, reply_q.as_str());
    assert(link@ =~= reply_link(addr@, msg));
    let mut c = owned("<article class=\"message\">");
    let subject = escape(msg.subject.as_str());
    push_group(&mut c, "<h1>", subject.as_str(), "</h1>");
    push_str(&mut c, "<dl class=\"headers\">");
    let from = escape(msg.from.as_str());
    push_group(&mut c, "<dt>from</dt><dd>", from.as_str(), "</dd>");
    let to = escape(msg.to.as_str());
    push_group(&mut c, "<dt>to</dt><dd>", to.as_str(), "</dd>");
    let received = decimal_string(msg.received_at);
    push_group(&mut c, "<dt>received</dt><dd>", received.as_str(), "</dd>");
    push_str(&mut c, "</dl>");
    let body = escape(msg.body.as_str());
    push_group(&mut c, "<pre class=\"body\">", body.as_str(), "</pre>");
    push_str(&mut c, "<p class=\"actions\"><a ");
    push_group(&mut c, "href=\"", link.as_str(), "\">reply</a>");
    push_str(&mut c, "</p></article>");
    assert(c@ == message_content(addr@, msg)) by {
        reveal(message_content);
    }
    ok_html(shell(msg.subject.as_str(), c.as_str()))
}

/// The message page shows the message's own fields, whatever mailbox it is
/// viewed from: its subject as the heading, its sender under `from`, its
/// recipient under `to`, its receive time under `received`, its body in
/// the preformatted block, each escaped, and a reply link to compose from
/// the viewed mailbox, to the sender, with the subject after `Re: `.
#[verifier::spinoff_prover]
pub proof fn law_message_page_shows_the_message(addr: Seq<char>, m: MessageFull)
    ensures
        occurs(message_page(addr, m), "<h1>"@ + escaped(m.subject@) + "</h1>"@),
        occurs(message_page(addr, m), "<dt>from</dt><dd>"@ + escaped(m.from@) + "</dd>"@),
        occurs(message_page(addr, m), "<dt>to</dt><dd>"@ + escaped(m.to@) + "</dd>"@),
        occurs(
            message_page(addr, m),
            "<dt>received</dt><dd>"@ + decimal(m.received_at as nat) + "</dd>"@,
        ),
        occurs(message_page(addr, m), "<pre class=\"body\">"@ + escaped(m.body@) + "</pre>"@),
        occurs(
            message_page(addr, m),
            "href=\"/compose?from="@ + url_encoded(addr) + "&to="@ + url_encoded(m.from@)
                + "&subject="@ + url_encoded("Re: "@ + m.subject@) + "\">reply</a>"@,
        ),
{
    broadcast use lemma_occurs_after, lemma_occurs_end;

    reveal(message_content);
    let c = message_content(addr, m);
    let t_reply = "href=\""@ + reply_link(addr, m) + "\">reply</a>"@;
    assert(occurs(c, "<h1>"@ + escaped(m.subject@) + "</h1>"@));
    assert(occurs(c, "<dt>from</dt><dd>"@ + escaped(m.from@) + "</dd>"@));
    assert(occurs(c, "<dt>to</dt><dd>"@ + escaped(m.to@) + "</dd>"@));
    assert(occurs(c, "<dt>received</dt><dd>"@ + decimal(m.received_at as nat) + "</dd>"@));
    assert(occurs(c, "<pre class=\"body\">"@ + escaped(m.body@) + "</pre>"@));
    assert(occurs(c, t_reply));
    lemma_in_page(m.subject@, c, "<h1>"@ + escaped(m.subject@) + "</h1>"@);
    lemma_in_page(m.subject@, c, "<dt>from</dt><dd>"@ + escaped(m.from@) + "</dd>"@);
    lemma_in_page(m.subject@, c, "<dt>to</dt><dd>"@ + escaped(m.to@) + "</dd>"@);
    lemma_in_page(m.subject@, c, "<dt>received</dt><dd>"@ + decimal(m.received_at as nat) + "</dd>"@);
    lemma_in_page(m.subject@, c, "<pre class=\"body\">"@ + escaped(m.body@) + "</pre>"@);
    lemma_in_page(m.subject@, c, t_reply);
    reveal_strlit("href=\"/compose?from=");
    reveal_strlit("href=\"");
    reveal_strlit("/compose?from=");
    assert(t_reply =~= "href=\"/compose?from="@ + url_encoded(addr) + "&to="@ + url_encoded(m.from@)
        + "&subject="@ + url_encoded("Re: "@ + m.subject@) + "\">reply</a>"@);
}

} // verus!
