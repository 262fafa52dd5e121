//! The compose form and its submission: the form pre-filled from the
//! query, and a submitted form checked and turned into mail to send.

use crate::render::{error, error_response, escape, escaped, html_response, lemma_in_page, ok_html, redirect, response_bytes, shell, shell_text};
use crate::request::{form_map, url_encode, url_encoded, Request};
use crate::text::{push_group, chars_of, copy_range, decimal, is_ws, lacks, lemma_split_absent, lemma_split_first, trim_end, trim_start, lemma_occurs_after, lemma_occurs_end, occurs, one, owned, push_decimal, push_str, range_holds, ranges_match, split, split_ranges, string_of, trim, trim_exec};
use crate::write_api::{texts, ApiResponse, SendModel, SendRequest};
use vstd::prelude::*;

verus! {

/// The value of a field, empty when it is absent.
pub open spec fn field(m: Map<Seq<char>, Seq<char>>, key: Seq<char>) -> Seq<char> {
    if m.contains_key(key) {
        m[key]
    } else {
        Seq::empty()
    }
}

/// The compose page, its fields pre-filled from the query.
pub open spec fn compose_page(query: Map<Seq<char>, Seq<char>>) -> Seq<char> {
    shell_text("compose"@, compose_content(query))
}

/// The compose form, its fields pre-filled from the query.
#[verifier::opaque]
pub open spec fn compose_content(query: Map<Seq<char>, Seq<char>>) -> Seq<char> {
    "<h1>compose</h1><form method=\"post\" action=\"/send\" class=\"compose\">"@
            + "<label>from "@ + ("<input name=\"from\" value=\""@ + escaped(field(query, "from"@))
            + "\" required>"@) + "</label>"@ + "<label>to   "@ + ("<input name=\"to\"   value=\""@
            + escaped(field(query, "to"@)) + "\" required>"@) + "</label>"@
            + "<label>cc   <input name=\"cc\"   value=\"\"></label>"@ + "<label>subject "@ + (
        "<input name=\"subject\" value=\""@ + escaped(field(query, "subject"@)) + "\">"@)
            + "</label>"@ + "<label>body "@ + ("<textarea name=\"body\" rows=\"15\">"@ + escaped(
            field(query, "body"@),
        ) + "</textarea>"@) + "</label><button type=\"submit\">send</button></form>"@
}

/// Renders the compose form, pre-filled from `from`, `to`, `subject` and
/// `body` in the query.
pub fn render(req: &Request) -> (r: Vec<u8>)
    ensures
        r@ == html_response(compose_page(req@.query)),
{
    let from = req.query.get_or_empty("from");
    let to = req.query.get_or_empty("to");
    let subject = req.query.get_or_empty("subject");
    let body = req.query.get_or_empty("body");
    let mut c = owned("<h1>compose</h1><form method=\"post\" action=\"/send\" class=\"compose\">");
    push_str(&mut c, "<label>from ");
    let e = escape(from.as_str());
    push_group(&mut c, "<input name=\"from\" value=\"", e.as_str(), "\" required>");
    push_str(&mut c, "</label>");
    push_str(&mut c, "<label>to   ");
    let e = escape(to.as_str());
    push_group(&mut c, "<input name=\"to\"   value=\"", e.as_str(), "\" required>");
    push_str(&mut c, "</label>");
    push_str(&mut c, "<label>cc   <input name=\"cc\"   value=\"\"></label>");
    push_str(&mut c, "<label>subject ");
    let e = escape(subject.as_str());
    push_group(&mut c, "<input name=\"subject\" value=\"", e.as_str(), "\">");
    push_str(&mut c, "</label>");
    push_str(&mut c, "<label>body ");
    let e = escape(body.as_str());
    push_group(&mut c, "<textarea name=\"body\" rows=\"15\">", e.as_str(), "</textarea>");
    push_str(&mut c, "</label><button type=\"submit\">send</button></form>");
    assert(c@ == compose_content(req@.query)) by {
        reveal(compose_content);
    }
    ok_html(shell("compose", c.as_str()))
}

/// The trimmed pieces that are not empty, in order.
pub open spec fn nonempty_trimmed(pieces: Seq<Seq<char>>) -> Seq<Seq<char>>
    decreases pieces.len(),
{
    if pieces.len() == 0 {
        Seq::empty()
    } else {
        let done = nonempty_trimmed(pieces.drop_last());
        let t = trim(pieces.last());
        if t.len() == 0 {
            done
        } else {
            done.push(t)
        }
    }
}

/// The addresses of a comma-separated list: trimmed, empty ones dropped.
pub open spec fn address_list(s: Seq<char>) -> Seq<Seq<char>> {
    nonempty_trimmed(split(s, one(',')))
}

/// Splits a comma-separated address list.
pub fn split_addresses(s: &str) -> (r: Vec<String>)
    ensures
        texts(r@) == address_list(s@),
{
    let v = chars_of(s);
    let comma = vec![','];
    assert(comma@ =~= one(','));
    let ranges = split_ranges(&v, &comma);
    let ghost pieces = split(v@, one(','));
    let mut out: Vec<String> = Vec::new();
    let mut i: usize = 0;
    assert(pieces.take(0) =~= Seq::<Seq<char>>::empty());
    assert(texts(out@) =~= Seq::<Seq<char>>::empty());
    while i < ranges.len()
        invariant
            i <= ranges.len(),
            ranges_match(v@, ranges@, pieces),
            texts(out@) == nonempty_trimmed(pieces.take(i as int)),
        decreases ranges.len() - i,
    {
        assert(range_holds(v@, ranges@[i as int], pieces[i as int]));
        let piece = copy_range(&v, ranges[i].0, ranges[i].1);
        let t = trim_exec(&piece);
        assert(pieces.take(i + 1).drop_last() =~= pieces.take(i as int));
        assert(pieces.take(i + 1).last() == piece@);
        if t.len() > 0 {
            let ghost before = out@;
            out.push(string_of(&t));
            assert(texts(out@) =~= texts(before).push(t@));
        }
        i = i + 1;
    }
    assert(pieces.take(ranges.len() as int) =~= pieces);
    out
}

/// What a submitted compose form leads to.
pub enum Submit {
    /// Answer right away with this response.
    Respond(Vec<u8>),
    /// Send `mail` from `from`, then answer with `submit_result`.
    Send { from: String, mail: SendRequest },
}

/// The mail a submitted form asks to send, when `from` and `to` are given.
pub open spec fn mail_of(form: Map<Seq<char>, Seq<char>>) -> SendModel {
    SendModel {
        to: address_list(field(form, "to"@)),
        cc: address_list(field(form, "cc"@)),
        subject: field(form, "subject"@),
        body: field(form, "body"@),
    }
}

/// Checks a submitted compose form: `from` and `to` are required; the `to`
/// and `cc` lists are split on commas.
pub fn submit(req: &Request) -> (r: Submit)
    ensures
        ({
            let form = form_map(req@.body);
            if field(form, "from"@).len() == 0 || field(form, "to"@).len() == 0 {
                r matches Submit::Respond(b) && b@ == error_response(400, "from and to are required"@)
            } else {
                r matches Submit::Send { from, mail } && from@ == field(form, "from"@) && mail@
                    == mail_of(form)
            }
        }),
{
    let form = req.form();
    let from = form.get_or_empty("from");
    let to = form.get_or_empty("to");
    let cc = form.get_or_empty("cc");
    let subject = form.get_or_empty("subject");
    let body = form.get_or_empty("body");
    if from.as_str().is_empty() || to.as_str().is_empty() {
        return Submit::Respond(error(400, "from and to are required"));
    }
    let to_list = split_addresses(to.as_str());
    let cc_list = split_addresses(cc.as_str());
    Submit::Send { from, mail: SendRequest { to: to_list, cc: cc_list, subject, body } }
}

/// The response after trying to send: a redirect to the sender's inbox on
/// a `2xx` reply, else an error page.
pub open spec fn submit_outcome(from: Seq<char>, outcome: Result<(u16, Seq<char>), Seq<char>>) -> Seq<u8> {
    match outcome {
        Ok((status, body)) => if 200 <= status < 300 {
            response_bytes(303, "text/plain"@, Seq::empty(), seq![("Location"@, "/m/"@ + url_encoded(from))])
        } else {
            error_response(502, "api returned "@ + decimal(status as nat) + ": "@ + body)
        },
        Err(e) => error_response(502, "send failed: "@ + e),
    }
}

/// Answers a submission once the API call has been made.
pub fn submit_result(from: &str, outcome: Result<ApiResponse, String>) -> (r: Vec<u8>)
    ensures
        r@ == submit_outcome(
            from@,
            match outcome {
                Ok(resp) => Ok((resp.status, resp.body@)),
                Err(e) => Err(e@),
            },
        ),
{
    match outcome {
        Ok(resp) => {
            if resp.status >= 200 && resp.status < 300 {
                let mut loc = owned("/m/");
                let enc = url_encode(from);
                push_str(&mut loc, enc.as_str());
                redirect(loc.as_str())
            } else {
                let mut m = owned("api returned ");
                push_decimal(&mut m, resp.status as u64);
                push_str(&mut m, ": ");
                push_str(&mut m, resp.body.as_str());
                error(502, m.as_str())
            }
        },
        Err(e) => {
            let mut m = owned("send failed: ");
            push_str(&mut m, e.as_str());
            error(502, m.as_str())
        },
    }
}

/// The compose form is pre-filled from the query: the `from`, `to` and
/// `subject` inputs hold the escaped values of those query fields, and the
/// body's text area holds exactly the escaped `body` field; each is empty
/// when its field is absent.
#[verifier::spinoff_prover]
pub proof fn law_compose_form_prefills(query: Map<Seq<char>, Seq<char>>)
    ensures
        occurs(
            compose_page(query),
            "<input name=\"from\" value=\""@ + escaped(
                if query.contains_key("from"@) { query["from"@] } else { Seq::empty() },
            ) + "\" required>"@,
        ),
        occurs(
            compose_page(query),
            "<input name=\"to\"   value=\""@ + escaped(
                if query.contains_key("to"@) { query["to"@] } else { Seq::empty() },
            ) + "\" required>"@,
        ),
        occurs(
            compose_page(query),
            "<input name=\"subject\" value=\""@ + escaped(
                if query.contains_key("subject"@) { query["subject"@] } else { Seq::empty() },
            ) + "\">"@,
        ),
        occurs(
            compose_page(query),
            "<textarea name=\"body\" rows=\"15\">"@ + escaped(
                if query.contains_key("body"@) { query["body"@] } else { Seq::empty() },
            ) + "</textarea>"@,
        ),
{
    broadcast use lemma_occurs_after, lemma_occurs_end;

    reveal(compose_content);
    let c = compose_content(query);
    let t_from = "<input name=\"from\" value=\""@ + escaped(field(query, "from"@)) + "\" required>"@;
    let t_to = "<input name=\"to\"   value=\""@ + escaped(field(query, "to"@)) + "\" required>"@;
    let t_subject = "<input name=\"subject\" value=\""@ + escaped(field(query, "subject"@)) + "\">"@;
    let t_body = "<textarea name=\"body\" rows=\"15\">"@ + escaped(field(query, "body"@)) + "</textarea>"@;
    assert(occurs(c, t_from));
    assert(occurs(c, t_to));
    assert(occurs(c, t_subject));
    assert(occurs(c, t_body));
    lemma_in_page("compose"@, c, t_from);
    lemma_in_page("compose"@, c, t_to);
    lemma_in_page("compose"@, c, t_subject);
    lemma_in_page("compose"@, c, t_body);
}

/// Addresses written as a comma-separated list.
pub open spec fn comma_list(xs: Seq<Seq<char>>) -> Seq<char>
    decreases xs.len(),
{
    if xs.len() == 0 {
        Seq::empty()
    } else if xs.len() == 1 {
        xs[0]
    } else {
        xs[0] + one(',') + comma_list(xs.drop_first())
    }
}

/// An address as a list can carry it: not empty, no comma, and no
/// whitespace at either end.
pub open spec fn clean_address(x: Seq<char>) -> bool {
    x.len() > 0 && lacks(x, ',') && !is_ws(x[0]) && !is_ws(x.last())
}

/// A clean address is its own trim.
proof fn lemma_clean_trim(x: Seq<char>)
    requires
        clean_address(x),
    ensures
        trim(x) == x,
{
    assert(trim_start(x) == x);
    assert(trim_end(x) == x);
}

/// The pieces of a comma list are its addresses.
#[verifier::spinoff_prover]
proof fn lemma_comma_split(xs: Seq<Seq<char>>)
    requires
        xs.len() > 0,
        forall|i: int| 0 <= i < xs.len() ==> #[trigger] clean_address(xs[i]),
    ensures
        split(comma_list(xs), one(',')) == xs,
        comma_list(xs).len() > 0,
    decreases xs.len(),
{
    assert(clean_address(xs[0]));
    if xs.len() == 1 {
        lemma_split_absent(xs[0], ',');
        assert(seq![xs[0]] =~= xs);
    } else {
        let rest = xs.drop_first();
        assert forall|i: int| 0 <= i < rest.len() implies #[trigger] clean_address(rest[i]) by {
            assert(rest[i] == xs[i + 1]);
            assert(clean_address(xs[i + 1]));
        }
        lemma_comma_split(rest);
        lemma_split_first(xs[0], ',', comma_list(rest));
        assert(seq![xs[0]] + rest =~= xs);
    }
}

/// Clean addresses are kept as they are, in order.
proof fn lemma_clean_kept(xs: Seq<Seq<char>>)
    requires
        forall|i: int| 0 <= i < xs.len() ==> #[trigger] clean_address(xs[i]),
    ensures
        nonempty_trimmed(xs) == xs,
    decreases xs.len(),
{
    if xs.len() > 0 {
        let init = xs.drop_last();
        assert forall|i: int| 0 <= i < init.len() implies #[trigger] clean_address(init[i]) by {
            assert(init[i] == xs[i]);
            assert(clean_address(xs[i]));
        }
        lemma_clean_kept(init);
        assert(clean_address(xs[xs.len() - 1]));
        lemma_clean_trim(xs.last());
        assert(init.push(xs.last()) =~= xs);
    }
}

/// Splitting a comma list of clean addresses gives those addresses back,
/// in order; none for the empty list.
#[verifier::spinoff_prover]
pub proof fn lemma_address_list_of_comma_list(xs: Seq<Seq<char>>)
    requires
        forall|i: int| 0 <= i < xs.len() ==> #[trigger] clean_address(xs[i]),
    ensures
        address_list(comma_list(xs)) == xs,
{
    if xs.len() == 0 {
        let e = Seq::<char>::empty();
        lemma_split_absent(e, ',');
        assert(split(e, one(',')) == seq![e]);
        assert(seq![e].drop_last() =~= Seq::<Seq<char>>::empty());
        assert(trim_start(e) == e);
        assert(trim_end(e) == e);
        assert(nonempty_trimmed(seq![e]) == nonempty_trimmed(Seq::<Seq<char>>::empty()));
        assert(nonempty_trimmed(seq![e]) =~= xs);
    } else {
        lemma_comma_split(xs);
        lemma_clean_kept(xs);
    }
}

} // verus!
