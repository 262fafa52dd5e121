//! The mailbox list: every registered address, linked to its inbox, with a
//! preview of its latest message.

use crate::api_reads::{MailboxSummary, Preview};
use crate::render::{error, error_response, escape, escaped, html_response, lemma_count_escaped, markup_char, ok_html, shell, shell_text};
use crate::request::{lemma_count_encoded, url_encode, url_encoded};
use crate::text::{count, lacks, lemma_count_lacks, lemma_count_concat, lemma_match_shift, match_at, push_str};
use vstd::prelude::*;

verus! {

/// The link to a mailbox's inbox, `/m/<address>`.
pub open spec fn mailbox_link(address: Seq<char>) -> Seq<char> {
    "/m/"@ + url_encoded(address)
}

/// The preview of a mailbox's latest message, after its link.
pub open spec fn preview_text(p: Preview) -> Seq<char> {
    match p {
        Preview::Latest(m) => " <span class=\"preview\"><span class=\"from\">"@ + escaped(m.from@)
            + "</span> <span class=\"subject\">"@ + escaped(m.subject@) + "</span></span>"@,
        Preview::Empty => " <span class=\"preview empty\">no messages</span>"@,
        Preview::Unavailable => " <span class=\"preview empty\">preview unavailable</span>"@,
    }
}

/// The list item of one mailbox: the link to its inbox, then the preview.
pub open spec fn mailbox_row(mb: MailboxSummary) -> Seq<char> {
    "<li><a href=\""@ + (mailbox_link(mb.address@) + "\""@) + ">"@ + escaped(mb.address@) + "</a>"@
        + preview_text(mb.preview) + "</li>"@
}

/// The list items of the mailboxes, in order.
pub open spec fn mailbox_rows(mailboxes: Seq<MailboxSummary>) -> Seq<char>
    decreases mailboxes.len(),
{
    if mailboxes.len() == 0 {
        Seq::empty()
    } else {
        mailbox_rows(mailboxes.drop_last()) + mailbox_row(mailboxes.last())
    }
}

/// The mailbox list page.
pub open spec fn mailbox_list_page(mailboxes: Seq<MailboxSummary>) -> Seq<char> {
    let rows = if mailboxes.len() == 0 {
        "<li class=\"empty\">no mailboxes registered yet</li>"@
    } else {
        mailbox_rows(mailboxes)
    };
    shell_text("mailboxes"@, "<h1>mailboxes</h1><ul class=\"mailboxes\">"@ + rows + "</ul>"@)
}

/// Appends the preview of a mailbox.
fn push_preview(out: &mut String, p: &Preview)
    ensures
        final(out)@ == old(out)@ + preview_text(*p),
{
    match p {
        Preview::Latest(m) => {
            let ghost before = out@;
            push_str(out, " <span class=\"preview\"><span class=\"from\">");
            let from = escape(m.from.as_str());
            push_str(out, from.as_str());
            push_str(out, "</span> <span class=\"subject\">");
            let subject = escape(m.subject.as_str());
            push_str(out, subject.as_str());
            push_str(out, "</span></span>");
            assert(out@ =~= before + preview_text(*p));
        },
        Preview::Empty => push_str(out, " <span class=\"preview empty\">no messages</span>"),
        Preview::Unavailable => push_str(out, " <span class=\"preview empty\">preview unavailable</span>"),
    }
}

/// Renders the mailbox list, or an error page when it could not be read.
pub fn render(mailboxes: Result<Vec<MailboxSummary>, String>) -> (r: Vec<u8>)
    ensures
        match mailboxes {
            Ok(v) => r@ == html_response(mailbox_list_page(v@)),
            Err(e) => r@ == error_response(500, "list mailboxes: "@ + e@),
        },
{
    let mailboxes = match mailboxes {
        Ok(m) => m,
        Err(e) => {
            let mut msg = crate::text::owned("list mailboxes: ");
            push_str(&mut msg, e.as_str());
            return error(500, msg.as_str());
        },
    };
    let mut rows = String::new();
    if mailboxes.len() == 0 {
        push_str(&mut rows, "<li class=\"empty\">no mailboxes registered yet</li>");
    } else {
        let mut i: usize = 0;
        assert(mailboxes@.take(0) =~= Seq::<MailboxSummary>::empty());
        while i < mailboxes.len()
            invariant
                i <= mailboxes.len(),
                rows@ == mailbox_rows(mailboxes@.take(i as int)),
            decreases mailboxes.len() - i,
        {
            let mb = &mailboxes[i];
            let address = mb.address.as_str();
            let ghost before = rows@;
            push_str(&mut rows, "<li><a href=\"");
            push_str(&mut rows, "/m/");
            let href = url_encode(address);
            push_str(&mut rows, href.as_str());
            push_str(&mut rows, "\"");
            push_str(&mut rows, ">");
            let label = escape(address);
            push_str(&mut rows, label.as_str());
            push_str(&mut rows, "</a>");
            push_preview(&mut rows, &mb.preview);
            push_str(&mut rows, "</li>");
            assert(rows@ =~= before + mailbox_row(*mb));
            assert(mailboxes@.take(i + 1).drop_last() =~= mailboxes@.take(i as int));
            i = i + 1;
        }
        assert(mailboxes@.take(mailboxes.len() as int) =~= mailboxes@);
    }
    let mut content = crate::text::owned("<h1>mailboxes</h1><ul class=\"mailboxes\">");
    push_str(&mut content, rows.as_str());
    push_str(&mut content, "</ul>");
    ok_html(shell("mailboxes", content.as_str()))
}

/// The link of a mailbox's row, up to and including the closing quote of
/// the `href`.
spec fn row_link(address: Seq<char>) -> Seq<char> {
    "/m/"@ + url_encoded(address) + "\""@
}

/// Where the link of each row stands in the rows: in the list's order.
#[verifier::spinoff_prover]
proof fn lemma_rows_links(mbs: Seq<MailboxSummary>) -> (pos: Seq<int>)
    ensures
        pos.len() == mbs.len(),
        forall|i: int| 0 <= i < mbs.len() ==> #[trigger] match_at(mailbox_rows(mbs), row_link(mbs[i].address@), pos[i]),
        forall|i: int, j: int| 0 <= i < j < mbs.len() ==> #[trigger] pos[i] < #[trigger] pos[j],
    decreases mbs.len(),
{
    broadcast use crate::text::lemma_match_after;

    if mbs.len() == 0 {
        Seq::empty()
    } else {
        let init = mbs.drop_last();
        let pre = lemma_rows_links(init);
        let r0 = mailbox_rows(init);
        let mb = mbs.last();
        let a = "<li><a href=\""@;
        let t = row_link(mb.address@);
        assert(t == mailbox_link(mb.address@) + "\""@);
        assert(match_at(a + t, t, a.len() as int)) by {
            assert((a + t).subrange(a.len() as int, a.len() + t.len() as int) =~= t);
        }
        assert(match_at(mailbox_row(mb), t, a.len() as int));
        lemma_match_shift(r0, mailbox_row(mb), Seq::empty(), t, a.len() as int);
        assert(r0 + mailbox_row(mb) + Seq::<char>::empty() =~= mailbox_rows(mbs));
        let pos = pre.push(r0.len() + a.len() as int);
        assert forall|i: int| 0 <= i < mbs.len() implies #[trigger] match_at(
            mailbox_rows(mbs),
            row_link(mbs[i].address@),
            pos[i],
        ) by {
            if i < init.len() {
                assert(mbs[i] == init[i]);
                assert(match_at(r0, row_link(init[i].address@), pre[i]));
                assert(match_at(r0 + mailbox_row(mb), row_link(init[i].address@), pre[i]));
            }
        }
        assert forall|i: int, j: int| 0 <= i < j < mbs.len() implies #[trigger] pos[i] < #[trigger] pos[j] by {
            if j == init.len() {
                assert(mbs[i] == init[i]);
                assert(match_at(r0, row_link(init[i].address@), pre[i]));
                reveal_strlit("\"");
                assert(row_link(init[i].address@).len() > 0);
            } else {
                assert(pos[i] == pre[i] && pos[j] == pre[j]);
            }
        }
        pos
    }
}

/// The page before the rows.
spec fn page_head() -> Seq<char> {
    crate::render::SHELL_START@ + escaped("mailboxes"@) + crate::render::SHELL_MIDDLE@
        + "<h1>mailboxes</h1><ul class=\"mailboxes\">"@
}

/// The page after the rows.
spec fn page_tail() -> Seq<char> {
    "</ul>"@ + crate::render::SHELL_END@
}

/// The mailbox list lists every mailbox, in order: the link `/m/<address>`
/// of each, with the address URL-encoded, stands on the page, each after
/// the one before.
#[verifier::spinoff_prover]
pub proof fn law_mailbox_list_lists_every_mailbox(mbs: Seq<MailboxSummary>)
    ensures
        exists|pos: Seq<int>|
            #![trigger pos.len()]
            {
                &&& pos.len() == mbs.len()
                &&& forall|i: int|
                    0 <= i < mbs.len() ==> #[trigger] match_at(
                        mailbox_list_page(mbs),
                        "/m/"@ + url_encoded(mbs[i].address@) + "\""@,
                        pos[i],
                    )
                &&& forall|i: int, j: int| 0 <= i < j < mbs.len() ==> #[trigger] pos[i] < #[trigger] pos[j]
            },
{
    if mbs.len() == 0 {
        let pos = Seq::<int>::empty();
        assert(pos.len() == mbs.len());
    } else {
        let rows = mailbox_rows(mbs);
        let pre = lemma_rows_links(mbs);
        let p = page_head();
        let q = page_tail();
        assert(mailbox_list_page(mbs) =~= p + rows + q);
        let pos = Seq::new(mbs.len(), |i: int| p.len() + pre[i]);
        assert forall|i: int| 0 <= i < mbs.len() implies #[trigger] match_at(
            mailbox_list_page(mbs),
            "/m/"@ + url_encoded(mbs[i].address@) + "\""@,
            pos[i],
        ) by {
            assert(match_at(rows, row_link(mbs[i].address@), pre[i]));
            lemma_match_shift(p, rows, q, row_link(mbs[i].address@), pre[i]);
        }
        assert forall|i: int, j: int| 0 <= i < j < mbs.len() implies #[trigger] pos[i] < #[trigger] pos[j] by {
            assert(pre[i] < pre[j]);
        }
        assert(pos.len() == mbs.len());
    }
}

/// The count of `<` in three texts put together.
proof fn lemma_count3(a: Seq<char>, b: Seq<char>, c: Seq<char>)
    ensures
        count(a + b + c, '<') == count(a, '<') + count(b, '<') + count(c, '<'),
{
    lemma_count_concat(a, b, '<');
    lemma_count_concat(a + b, c, '<');
}

/// The opening of a preview of the latest message has two tags.
#[verifier::spinoff_prover]
proof fn lemma_latest_open_tags()
    ensures
        count(" <span class=\"preview\"><span class=\"from\">"@, '<') == 2,
{
    let x = " <span class=\"preview\"><span class=\"from\">"@;
    let a = " <span class=\"preview\">"@;
    let b = "<span class=\"from\">"@;
    reveal_strlit(" <span class=\"preview\"><span class=\"from\">");
    reveal_strlit(" <span class=\"preview\">");
    reveal_strlit("<span class=\"from\">");
    assert(x =~= a + b + Seq::<char>::empty());
    lemma_count3(a, b, Seq::empty());
    assert(count(a, '<') == 1) by {
        reveal_with_fuel(count, 24);
    }
    assert(count(b, '<') == 1) by {
        reveal_with_fuel(count, 20);
    }
}

/// The middle and end of a preview of the latest message have two tags each.
#[verifier::spinoff_prover]
proof fn lemma_latest_rest_tags()
    ensures
        count("</span> <span class=\"subject\">"@, '<') == 2,
        count("</span></span>"@, '<') == 2,
{
    reveal_strlit("</span> <span class=\"subject\">");
    reveal_strlit("</span></span>");
    assert(count("</span> <span class=\"subject\">"@, '<') == 2) by {
        reveal_with_fuel(count, 31);
    }
    assert(count("</span></span>"@, '<') == 2) by {
        reveal_with_fuel(count, 15);
    }
}

/// The opening of a quiet preview has one tag.
#[verifier::spinoff_prover]
proof fn lemma_quiet_open_tags()
    ensures
        count(" <span class=\"preview empty\">"@, '<') == 1,
{
    let x = " <span class=\"preview empty\">"@;
    let a = " "@;
    let b = "<span "@;
    let c = "class=\"preview empty\">"@;
    reveal_strlit(" <span class=\"preview empty\">");
    reveal_strlit(" ");
    reveal_strlit("<span ");
    reveal_strlit("class=\"preview empty\">");
    assert(x =~= a + b + c);
    lemma_count3(a, b, c);
    assert(count(a, '<') == 0) by {
        reveal_with_fuel(count, 2);
    }
    assert(count(b, '<') == 1) by {
        reveal_with_fuel(count, 7);
    }
    assert(lacks(c, '<'));
    lemma_count_lacks(c, '<');
}

/// A text of the form `<opening>words</span>` has two tags.
#[verifier::spinoff_prover]
proof fn lemma_quiet_tags(words: Seq<char>)
    requires
        lacks(words, '<'),
    ensures
        count(" <span class=\"preview empty\">"@ + words + "</span>"@, '<') == 2,
{
    reveal_strlit(" <span class=\"preview empty\">");
    reveal_strlit("</span>");
    lemma_count3(" <span class=\"preview empty\">"@, words, "</span>"@);
    lemma_count_lacks(words, '<');
    lemma_quiet_open_tags();
    assert(count("</span>"@, '<') == 1) by {
        reveal_with_fuel(count, 8);
    }
}

/// The tags of a preview: six for the latest message's, two otherwise.
#[verifier::spinoff_prover]
proof fn lemma_preview_tags(p: Preview)
    ensures
        count(preview_text(p), '<') == if p is Latest { 6nat } else { 2nat },
{
    assert(markup_char('<'));
    match p {
        Preview::Latest(m) => {
            lemma_latest_open_tags();
            lemma_latest_rest_tags();
            lemma_count_escaped(m.from@, '<');
            lemma_count_escaped(m.subject@, '<');
            let a = " <span class=\"preview\"><span class=\"from\">"@;
            let b = "</span> <span class=\"subject\">"@;
            let c = "</span></span>"@;
            lemma_count_concat(a, escaped(m.from@), '<');
            lemma_count_concat(a + escaped(m.from@), b, '<');
            lemma_count_concat(a + escaped(m.from@) + b, escaped(m.subject@), '<');
            lemma_count_concat(a + escaped(m.from@) + b + escaped(m.subject@), c, '<');
        },
        Preview::Empty => {
            let w = "no messages"@;
            reveal_strlit("no messages");
            reveal_strlit(" <span class=\"preview empty\">no messages</span>");
            reveal_strlit(" <span class=\"preview empty\">");
            reveal_strlit("</span>");
            assert(lacks(w, '<'));
            lemma_quiet_tags(w);
            assert(" <span class=\"preview empty\">no messages</span>"@ =~= " <span class=\"preview empty\">"@
                + w + "</span>"@);
        },
        Preview::Unavailable => {
            let w = "preview unavailable"@;
            reveal_strlit("preview unavailable");
            reveal_strlit(" <span class=\"preview empty\">preview unavailable</span>");
            reveal_strlit(" <span class=\"preview empty\">");
            reveal_strlit("</span>");
            assert(lacks(w, '<'));
            lemma_quiet_tags(w);
            assert(" <span class=\"preview empty\">preview unavailable</span>"@
                =~= " <span class=\"preview empty\">"@ + w + "</span>"@);
        },
    }
}

/// The literal parts of a row hold four tags.
#[verifier::spinoff_prover]
proof fn lemma_row_frame_tags()
    ensures
        count("<li><a href=\""@, '<') == 2,
        count("/m/"@, '<') == 0,
        count("\""@, '<') == 0,
        count(">"@, '<') == 0,
        count("</a>"@, '<') == 1,
        count("</li>"@, '<') == 1,
{
    reveal_strlit("<li><a href=\"");
    reveal_strlit("/m/");
    reveal_strlit("\"");
    reveal_strlit(">");
    reveal_strlit("</a>");
    reveal_strlit("</li>");
    assert(count("<li><a href=\""@, '<') == 2) by {
        reveal_with_fuel(count, 14);
    }
    assert(count("/m/"@, '<') == 0) by {
        reveal_with_fuel(count, 4);
    }
    assert(count("\""@, '<') == 0) by {
        reveal_with_fuel(count, 2);
    }
    assert(count(">"@, '<') == 0) by {
        reveal_with_fuel(count, 2);
    }
    assert(count("</a>"@, '<') == 1) by {
        reveal_with_fuel(count, 5);
    }
    assert(count("</li>"@, '<') == 1) by {
        reveal_with_fuel(count, 6);
    }
}

/// The tags of a row: its link's two, the closing `</a>` and `</li>`, and
/// its preview's.
#[verifier::spinoff_prover]
proof fn lemma_row_tags(mb: MailboxSummary)
    ensures
        count(mailbox_row(mb), '<') == 4 + if mb.preview is Latest { 6nat } else { 2nat },
{
    assert(markup_char('<'));
    lemma_row_frame_tags();
    let e = url_encoded(mb.address@);
    let x = escaped(mb.address@);
    let p = preview_text(mb.preview);
    lemma_count_encoded(mb.address@, '<');
    lemma_count_escaped(mb.address@, '<');
    lemma_preview_tags(mb.preview);
    let l1 = "<li><a href=\""@;
    let link = "/m/"@ + e + "\""@;
    lemma_count3("/m/"@, e, "\""@);
    lemma_count_concat(l1, link, '<');
    lemma_count_concat(l1 + link, ">"@, '<');
    lemma_count_concat(l1 + link + ">"@, x, '<');
    lemma_count_concat(l1 + link + ">"@ + x, "</a>"@, '<');
    lemma_count_concat(l1 + link + ">"@ + x + "</a>"@, p, '<');
    lemma_count_concat(l1 + link + ">"@ + x + "</a>"@ + p, "</li>"@, '<');
    assert(mailbox_row(mb) == l1 + link + ">"@ + x + "</a>"@ + p + "</li>"@);
}

/// The "no mailboxes" line has two tags.
#[verifier::spinoff_prover]
proof fn lemma_empty_line_tags()
    ensures
        count("<li class=\"empty\">no mailboxes registered yet</li>"@, '<') == 2,
{
    let w = "no mailboxes registered yet"@;
    let a = "<li class=\"empty\">"@;
    let c = "</li>"@;
    reveal_strlit("<li class=\"empty\">no mailboxes registered yet</li>");
    reveal_strlit("no mailboxes registered yet");
    reveal_strlit("<li class=\"empty\">");
    reveal_strlit("</li>");
    assert("<li class=\"empty\">no mailboxes registered yet</li>"@ =~= a + w + c);
    lemma_count3(a, w, c);
    assert(lacks(w, '<'));
    lemma_count_lacks(w, '<');
    assert(count(a, '<') == 1) by {
        reveal_with_fuel(count, 19);
    }
    assert(count(c, '<') == 1) by {
        reveal_with_fuel(count, 6);
    }
}

/// The `<` of the page are those of its head, its rows and its tail.
#[verifier::spinoff_prover]
proof fn lemma_page_count(mbs: Seq<MailboxSummary>)
    ensures
        count(mailbox_list_page(mbs), '<') == count(page_head(), '<') + count(
            if mbs.len() == 0 {
                "<li class=\"empty\">no mailboxes registered yet</li>"@
            } else {
                mailbox_rows(mbs)
            },
            '<',
        ) + count(page_tail(), '<'),
{
    let r = if mbs.len() == 0 {
        "<li class=\"empty\">no mailboxes registered yet</li>"@
    } else {
        mailbox_rows(mbs)
    };
    assert(mailbox_list_page(mbs) =~= page_head() + r + page_tail());
    lemma_count_concat(page_head(), r, '<');
    lemma_count_concat(page_head() + r, page_tail(), '<');
}

/// The mailbox list has one row per mailbox: every mailbox added to the
/// list adds one row to the page, with its four tags and its preview's (six
/// for a latest message, two otherwise), and the first one replaces the
/// "no mailboxes" line (two tags).
#[verifier::spinoff_prover]
pub proof fn law_mailbox_list_one_row_per_mailbox(mbs: Seq<MailboxSummary>, mb: MailboxSummary)
    ensures
        mbs.len() > 0 ==> count(mailbox_list_page(mbs.push(mb)), '<') == count(mailbox_list_page(mbs), '<')
            + 4 + if mb.preview is Latest { 6nat } else { 2nat },
        count(mailbox_list_page(seq![mb]), '<') + 2 == count(mailbox_list_page(Seq::empty()), '<') + 4
            + if mb.preview is Latest { 6nat } else { 2nat },
{
    lemma_empty_line_tags();
    lemma_row_tags(mb);
    lemma_page_count(mbs);
    lemma_page_count(mbs.push(mb));
    lemma_page_count(seq![mb]);
    lemma_page_count(Seq::empty());
    assert(mbs.push(mb).drop_last() =~= mbs);
    assert(mbs.push(mb).last() == mb);
    lemma_count_concat(mailbox_rows(mbs), mailbox_row(mb), '<');
    assert(seq![mb].drop_last() =~= Seq::<MailboxSummary>::empty());
    assert(seq![mb].last() == mb);
    assert(mailbox_rows(Seq::<MailboxSummary>::empty()) + mailbox_row(mb) =~= mailbox_row(mb));
}

} // verus!
