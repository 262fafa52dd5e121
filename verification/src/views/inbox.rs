//! One mailbox's inbox: its messages, each linked to the message page.

use crate::api_reads::InboxMessage;
use crate::render::{error, error_response, escape, escaped, html_response, lemma_count_escaped, markup_char, ok_html, shell, shell_text};
use crate::request::{lemma_count_encoded, url_encode, url_encoded};
use crate::text::{count, lacks, lemma_count_lacks, lemma_count_concat, lemma_match_after, lemma_match_shift, match_at, owned, push_str};
use vstd::prelude::*;

verus! {

/// The link to message `id` of mailbox `addr`, `/m/<addr>/<id>`.
pub open spec fn message_link(addr: Seq<char>, id: Seq<char>) -> Seq<char> {
    "/m/"@ + url_encoded(addr) + "/"@ + url_encoded(id)
}

/// The list item of one message of mailbox `addr`.
pub open spec fn message_row(addr: Seq<char>, m: InboxMessage) -> Seq<char> {
    "<li><a href=\""@ + (message_link(addr, m.id@) + "\""@) + "><span class=\"from\">"@ + escaped(
        m.from@,
    ) + "</span><span class=\"subject\">"@ + escaped(m.subject@) + "</span></a></li>"@
}

/// The list items of the messages, in order.
pub open spec fn message_rows(addr: Seq<char>, messages: Seq<InboxMessage>) -> Seq<char>
    decreases messages.len(),
{
    if messages.len() == 0 {
        Seq::empty()
    } else {
        message_rows(addr, messages.drop_last()) + message_row(addr, messages.last())
    }
}

/// The link that opens the compose form from mailbox `addr`.
pub open spec fn compose_link(addr: Seq<char>) -> Seq<char> {
    "/compose?from="@ + url_encoded(addr)
}

/// The content of the inbox page of mailbox `addr`, around its rows.
pub open spec fn inbox_content(addr: Seq<char>, rows: Seq<char>) -> Seq<char> {
    "<h1>"@ + escaped(addr) + "</h1><p class=\"actions\"><a href=\""@ + compose_link(addr)
        + "\">compose from this address</a></p><ul class=\"inbox\">"@ + rows + "</ul>"@
}

/// The inbox page of mailbox `addr`.
pub open spec fn inbox_page(addr: Seq<char>, messages: Seq<InboxMessage>) -> Seq<char> {
    let rows = if messages.len() == 0 {
        "<li class=\"empty\">no messages</li>"@
    } else {
        message_rows(addr, messages)
    };
    shell_text(addr, inbox_content(addr, rows))
}

/// Renders the inbox of `addr`, or an error page when it could not be read.
pub fn render(addr: &str, messages: Result<Vec<InboxMessage>, String>) -> (r: Vec<u8>)
    ensures
        match messages {
            Ok(v) => r@ == html_response(inbox_page(addr@, v@)),
            Err(e) => r@ == error_response(500, "list inbox "@ + addr@ + ": "@ + e@),
        },
{
    let messages = match messages {
        Ok(m) => m,
        Err(e) => {
            let mut msg = owned("list inbox ");
            push_str(&mut msg, addr);
            push_str(&mut msg, ": ");
            push_str(&mut msg, e.as_str());
            return error(500, msg.as_str());
        },
    };
    let mut rows = String::new();
    if messages.len() == 0 {
        push_str(&mut rows, "<li class=\"empty\">no messages</li>");
    } else {
        let href_addr = url_encode(addr);
        let mut i: usize = 0;
        assert(messages@.take(0) =~= Seq::<InboxMessage>::empty());
        while i < messages.len()
            invariant
                i <= messages.len(),
                href_addr@ == url_encoded(addr@),
                rows@ == message_rows(addr@, messages@.take(i as int)),
            decreases messages.len() - i,
        {
            let m = &messages[i];
            let ghost before = rows@;
            push_str(&mut rows, "<li><a href=\"");
            push_str(&mut rows, "/m/");
            push_str(&mut rows, href_addr.as_str());
            push_str(&mut rows, "/");
            let href_id = url_encode(m.id.as_str());
            push_str(&mut rows, href_id.as_str());
            push_str(&mut rows, "\"");
            push_str(&mut rows, "><span class=\"from\">");
            let from = escape(m.from.as_str());
            push_str(&mut rows, from.as_str());
            push_str(&mut rows, "</span><span class=\"subject\">");
            let subject = escape(m.subject.as_str());
            push_str(&mut rows, subject.as_str());
            push_str(&mut rows, "</span></a></li>");
            assert(rows@ =~= before + message_row(addr@, *m));
            assert(messages@.take(i + 1).drop_last() =~= messages@.take(i as int));
            i = i + 1;
        }
        assert(messages@.take(messages.len() as int) =~= messages@);
    }
    let mut content = owned("<h1>");
    let title = escape(addr);
    push_str(&mut content, title.as_str());
    push_str(&mut content, "</h1><p class=\"actions\"><a href=\"");
    push_str(&mut content, "/compose?from=");
    let addr_q = url_encode(addr);
    push_str(&mut content, addr_q.as_str());
    push_str(&mut content, "\">compose from this address</a></p><ul class=\"inbox\">");
    push_str(&mut content, rows.as_str());
    push_str(&mut content, "</ul>");
    assert(content@ =~= inbox_content(addr@, rows@));
    ok_html(shell(addr, content.as_str()))
}

/// Two message rows count the same markup, whatever their data.
proof fn lemma_row_markup(addr: Seq<char>, m: InboxMessage, addr2: Seq<char>, m2: InboxMessage, c: char)
    requires
        markup_char(c),
    ensures
        count(message_row(addr, m), c) == count(message_row(addr2, m2), c),
{
    broadcast use lemma_count_concat;

    lemma_count_encoded(addr, c);
    lemma_count_encoded(m.id@, c);
    lemma_count_escaped(m.from@, c);
    lemma_count_escaped(m.subject@, c);
    lemma_count_encoded(addr2, c);
    lemma_count_encoded(m2.id@, c);
    lemma_count_escaped(m2.from@, c);
    lemma_count_escaped(m2.subject@, c);
}

/// Rows of equally many messages count the same markup.
proof fn lemma_rows_markup(
    addr: Seq<char>,
    ms: Seq<InboxMessage>,
    addr2: Seq<char>,
    ms2: Seq<InboxMessage>,
    c: char,
)
    requires
        markup_char(c),
        ms.len() == ms2.len(),
    ensures
        count(message_rows(addr, ms), c) == count(message_rows(addr2, ms2), c),
    decreases ms.len(),
{
    broadcast use lemma_count_concat;

    if ms.len() > 0 {
        lemma_rows_markup(addr, ms.drop_last(), addr2, ms2.drop_last(), c);
        lemma_row_markup(addr, ms.last(), addr2, ms2.last(), c);
    }
}

/// The data of an inbox page (the address, and each message's id, sender
/// and subject) never adds markup: for each of `<`, `>`, `"` and `'`, two
/// inbox pages that list equally many messages hold equally many, whatever
/// their data, so every tag and attribute delimiter on the page comes from
/// its template. Data reaches the page only escaped or URL-encoded.
#[verifier::spinoff_prover]
pub proof fn law_inbox_markup_is_the_template(
    addr: Seq<char>,
    ms: Seq<InboxMessage>,
    addr2: Seq<char>,
    ms2: Seq<InboxMessage>,
    c: char,
)
    requires
        markup_char(c),
        ms.len() == ms2.len(),
    ensures
        count(inbox_page(addr, ms), c) == count(inbox_page(addr2, ms2), c),
{
    broadcast use lemma_count_concat;

    lemma_rows_markup(addr, ms, addr2, ms2, c);
    lemma_count_encoded(addr, c);
    lemma_count_escaped(addr, c);
    lemma_count_encoded(addr2, c);
    lemma_count_escaped(addr2, c);
}

/// The link of message `m`'s row on the inbox page of `addr`, up to and
/// including the closing quote of the `href`.
spec fn row_link(addr: Seq<char>, m: InboxMessage) -> Seq<char> {
    "/m/"@ + url_encoded(addr) + "/"@ + url_encoded(m.id@) + "\""@
}

/// Where the link of each row stands in the rows: in the listing's order.
#[verifier::spinoff_prover]
proof fn lemma_rows_links(addr: Seq<char>, ms: Seq<InboxMessage>) -> (pos: Seq<int>)
    ensures
        pos.len() == ms.len(),
        forall|i: int| 0 <= i < ms.len() ==> #[trigger] match_at(message_rows(addr, ms), row_link(addr, ms[i]), pos[i]),
        forall|i: int, j: int| 0 <= i < j < ms.len() ==> #[trigger] pos[i] < #[trigger] pos[j],
    decreases ms.len(),
{
    broadcast use lemma_match_after;

    if ms.len() == 0 {
        Seq::empty()
    } else {
        let init = ms.drop_last();
        let pre = lemma_rows_links(addr, init);
        let r0 = message_rows(addr, init);
        let m = ms.last();
        let a = "<li><a href=\""@;
        let t = row_link(addr, m);
        assert(t == message_link(addr, m.id@) + "\""@);
        assert(match_at(a + t, t, a.len() as int)) by {
            assert((a + t).subrange(a.len() as int, a.len() + t.len() as int) =~= t);
        }
        assert(match_at(message_row(addr, m), t, a.len() as int));
        lemma_match_shift(r0, message_row(addr, m), Seq::empty(), t, a.len() as int);
        assert(r0 + message_row(addr, m) + Seq::<char>::empty() =~= message_rows(addr, ms));
        let pos = pre.push(r0.len() + a.len() as int);
        assert forall|i: int| 0 <= i < ms.len() implies #[trigger] match_at(
            message_rows(addr, ms),
            row_link(addr, ms[i]),
            pos[i],
        ) by {
            if i < init.len() {
                assert(ms[i] == init[i]);
                assert(match_at(r0, row_link(addr, init[i]), pre[i]));
                assert(match_at(r0 + message_row(addr, m), row_link(addr, init[i]), pre[i]));
            }
        }
        assert forall|i: int, j: int| 0 <= i < j < ms.len() implies #[trigger] pos[i] < #[trigger] pos[j] by {
            if j == init.len() {
                assert(ms[i] == init[i]);
                assert(match_at(r0, row_link(addr, init[i]), pre[i]));
                reveal_strlit("\"");
                assert(row_link(addr, init[i]).len() > 0);
            } else {
                assert(pos[i] == pre[i] && pos[j] == pre[j]);
            }
        }
        pos
    }
}

/// The inbox page lists every message, in the listing's order: the link
/// `/m/<addr>/<id>` of each message, with the address and the id
/// URL-encoded, stands on the page, each after the one before.
#[verifier::spinoff_prover]
pub proof fn law_inbox_lists_every_message(addr: Seq<char>, ms: Seq<InboxMessage>)
    ensures
        exists|pos: Seq<int>|
            #![trigger pos.len()]
            {
                &&& pos.len() == ms.len()
                &&& forall|i: int|
                    0 <= i < ms.len() ==> #[trigger] match_at(
                        inbox_page(addr, ms),
                        "/m/"@ + url_encoded(addr) + "/"@ + url_encoded(ms[i].id@) + "\""@,
                        pos[i],
                    )
                &&& forall|i: int, j: int| 0 <= i < j < ms.len() ==> #[trigger] pos[i] < #[trigger] pos[j]
            },
{
    if ms.len() == 0 {
        let pos = Seq::<int>::empty();
        assert(pos.len() == ms.len());
    } else {
        let rows = message_rows(addr, ms);
        let pre = lemma_rows_links(addr, ms);
        let c0 = "<h1>"@ + escaped(addr) + "</h1><p class=\"actions\"><a href=\""@ + compose_link(addr)
            + "\">compose from this address</a></p><ul class=\"inbox\">"@;
        let p = crate::render::SHELL_START@ + escaped(addr) + crate::render::SHELL_MIDDLE@ + c0;
        let q = "</ul>"@ + crate::render::SHELL_END@;
        assert(inbox_page(addr, ms) =~= p + rows + q);
        let pos = Seq::new(ms.len(), |i: int| p.len() + pre[i]);
        assert forall|i: int| 0 <= i < ms.len() implies #[trigger] match_at(
            inbox_page(addr, ms),
            "/m/"@ + url_encoded(addr) + "/"@ + url_encoded(ms[i].id@) + "\""@,
            pos[i],
        ) by {
            assert(match_at(rows, row_link(addr, ms[i]), pre[i]));
            lemma_match_shift(p, rows, q, row_link(addr, ms[i]), pre[i]);
        }
        assert forall|i: int, j: int| 0 <= i < j < ms.len() implies #[trigger] pos[i] < #[trigger] pos[j] by {
            assert(pre[i] < pre[j]);
        }
        assert(pos.len() == ms.len());
    }
}

/// The literal parts of a row hold eight tags.
#[verifier::spinoff_prover]
proof fn lemma_row_frame_tags()
    ensures
        count("<li><a href=\""@, '<') == 2,
        count("/m/"@, '<') == 0,
        count("/"@, '<') == 0,
        count("\""@, '<') == 0,
        count("><span class=\"from\">"@, '<') == 1,
        count("</span><span class=\"subject\">"@, '<') == 2,
        count("</span></a></li>"@, '<') == 3,
{
    reveal_strlit("<li><a href=\"");
    reveal_strlit("/m/");
    reveal_strlit("/");
    reveal_strlit("\"");
    reveal_strlit("><span class=\"from\">");
    reveal_strlit("</span><span class=\"subject\">");
    reveal_strlit("</span></a></li>");
    assert(count("<li><a href=\""@, '<') == 2) by {
        reveal_with_fuel(count, 14);
    }
    assert(count("/m/"@, '<') == 0) by {
        reveal_with_fuel(count, 4);
    }
    assert(count("/"@, '<') == 0) by {
        reveal_with_fuel(count, 2);
    }
    assert(count("\""@, '<') == 0) by {
        reveal_with_fuel(count, 2);
    }
    assert(count("><span class=\"from\">"@, '<') == 1) by {
        reveal_with_fuel(count, 21);
    }
    assert(count("</span><span class=\"subject\">"@, '<') == 2) by {
        reveal_with_fuel(count, 30);
    }
    assert(count("</span></a></li>"@, '<') == 3) by {
        reveal_with_fuel(count, 17);
    }
}

/// The `<` of one row: the row's eight tags, none from its data.
#[verifier::spinoff_prover]
proof fn lemma_row_tags(addr: Seq<char>, m: InboxMessage)
    ensures
        count(message_row(addr, m), '<') == 8,
{
    assert(markup_char('<'));
    lemma_row_frame_tags();
    lemma_count_encoded(addr, '<');
    lemma_count_encoded(m.id@, '<');
    lemma_count_escaped(m.from@, '<');
    lemma_count_escaped(m.subject@, '<');
    let ea = url_encoded(addr);
    let ei = url_encoded(m.id@);
    let l1 = "<li><a href=\""@;
    let link = "/m/"@ + ea + "/"@ + ei + "\""@;
    lemma_count_concat("/m/"@, ea, '<');
    lemma_count_concat("/m/"@ + ea, "/"@, '<');
    lemma_count_concat("/m/"@ + ea + "/"@, ei, '<');
    lemma_count_concat("/m/"@ + ea + "/"@ + ei, "\""@, '<');
    let l2 = "><span class=\"from\">"@;
    let f = escaped(m.from@);
    let l3 = "</span><span class=\"subject\">"@;
    let sj = escaped(m.subject@);
    let l4 = "</span></a></li>"@;
    lemma_count_concat(l1, link, '<');
    lemma_count_concat(l1 + link, l2, '<');
    lemma_count_concat(l1 + link + l2, f, '<');
    lemma_count_concat(l1 + link + l2 + f, l3, '<');
    lemma_count_concat(l1 + link + l2 + f + l3, sj, '<');
    lemma_count_concat(l1 + link + l2 + f + l3 + sj, l4, '<');
    assert(message_row(addr, m) == l1 + link + l2 + f + l3 + sj + l4);
}

/// The "no messages" line has two tags.
#[verifier::spinoff_prover]
proof fn lemma_empty_line_tags()
    ensures
        count("<li class=\"empty\">no messages</li>"@, '<') == 2,
{
    let w = "no messages"@;
    let a = "<li class=\"empty\">"@;
    let c = "</li>"@;
    reveal_strlit("<li class=\"empty\">no messages</li>");
    reveal_strlit("no messages");
    reveal_strlit("<li class=\"empty\">");
    reveal_strlit("</li>");
    assert("<li class=\"empty\">no messages</li>"@ =~= a + w + c);
    lemma_count_concat(a, w, '<');
    lemma_count_concat(a + w, c, '<');
    assert(lacks(w, '<'));
    lemma_count_lacks(w, '<');
    assert(count(a, '<') == 1) by {
        reveal_with_fuel(count, 19);
    }
    assert(count(c, '<') == 1) by {
        reveal_with_fuel(count, 6);
    }
}

/// The page before the rows, for mailbox `addr`.
spec fn page_head(addr: Seq<char>) -> Seq<char> {
    crate::render::SHELL_START@ + escaped(addr) + crate::render::SHELL_MIDDLE@ + ("<h1>"@ + escaped(
        addr,
    ) + "</h1><p class=\"actions\"><a href=\""@ + compose_link(addr)
        + "\">compose from this address</a></p><ul class=\"inbox\">"@)
}

/// The page after the rows.
spec fn page_tail() -> Seq<char> {
    "</ul>"@ + crate::render::SHELL_END@
}

/// The `<` of the page are those of its head, its rows and its tail.
#[verifier::spinoff_prover]
proof fn lemma_page_count(addr: Seq<char>, ms: Seq<InboxMessage>)
    ensures
        count(inbox_page(addr, ms), '<') == count(page_head(addr), '<') + count(
            if ms.len() == 0 {
                "<li class=\"empty\">no messages</li>"@
            } else {
                message_rows(addr, ms)
            },
            '<',
        ) + count(page_tail(), '<'),
{
    let r = if ms.len() == 0 {
        "<li class=\"empty\">no messages</li>"@
    } else {
        message_rows(addr, ms)
    };
    assert(inbox_page(addr, ms) =~= page_head(addr) + r + page_tail());
    lemma_count_concat(page_head(addr), r, '<');
    lemma_count_concat(page_head(addr) + r, page_tail(), '<');
}

/// The inbox page has one row per message: every message added to a
/// listing adds one row, with its eight tags, to the page, and the first
/// one replaces the "no messages" line (two tags).
#[verifier::spinoff_prover]
pub proof fn law_inbox_one_row_per_message(addr: Seq<char>, ms: Seq<InboxMessage>, m: InboxMessage)
    ensures
        ms.len() > 0 ==> count(inbox_page(addr, ms.push(m)), '<') == count(inbox_page(addr, ms), '<') + 8,
        count(inbox_page(addr, seq![m]), '<') + 2 == count(inbox_page(addr, Seq::empty()), '<') + 8,
{
    lemma_empty_line_tags();
    lemma_row_tags(addr, m);
    lemma_page_count(addr, ms);
    lemma_page_count(addr, ms.push(m));
    lemma_page_count(addr, seq![m]);
    lemma_page_count(addr, Seq::empty());
    assert(ms.push(m).drop_last() =~= ms);
    assert(ms.push(m).last() == m);
    lemma_count_concat(message_rows(addr, ms), message_row(addr, m), '<');
    assert(seq![m].drop_last() =~= Seq::<InboxMessage>::empty());
    assert(seq![m].last() == m);
    assert(message_rows(addr, Seq::<InboxMessage>::empty()) + message_row(addr, m) =~= message_row(addr, m));
}

} // verus!
