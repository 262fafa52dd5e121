//! The per-connection handler: its state, the start-up decisions, and the
//! dispatch of one request to a response or to the read or write it needs.
//!
//! Routes:
//!   GET  /                  mailbox list
//!   GET  /m/<addr>          inbox of one mailbox
//!   GET  /m/<addr>/<id>     one message
//!   GET  /compose           compose form
//!   POST /send              submit compose: API, then 303 to /m/<from>
//!   GET  /static/style.css  the stylesheet, served without credentials
//!   GET  /static/favicon.svg  the icon

use crate::auth::{authorized, check};
use crate::render::{basic_auth_challenge, challenge_header, challenge_page, css, svg, error, error_response, html_response, html_type, response_bytes};
use crate::request::{
    form_fold, form_map, lemma_plain_ascii, lemma_url_decoded_after_plain, lemma_url_decoded_link,
    lemma_url_encoded_lacks,
    bare_get, lemma_lacks_concat, lemma_parse_bare_get, law_url_decode_inverts_encode,
    law_url_encoded_is_url_safe, pair_key_value, parse_request,
    target_path, target_query, url_decoded, url_encoded, url_safe_char, Request,
    RequestModel,
};
use crate::text::{lacks, lemma_split_absent, lemma_split_first, chars_of, copy_range, one, owned, push_str, range_holds, split, split_ranges, str_eq, string_from_utf8, string_of_range};
use crate::views::compose::{
    clean_address, comma_list, compose_page, field, lemma_address_list_of_comma_list, mail_of,
    submit_outcome, Submit,
};
use crate::views::inbox::{compose_link, message_link};
use crate::views::mailbox_list::mailbox_link;
use crate::views::message::reply_link;
use crate::api_reads::MessageFull;
use crate::views::{FAVICON_SVG, STYLE_CSS};
use crate::write_api::{SendModel, SendRequest};
use vstd::prelude::*;
use vstd::utf8::*;

verus! {

/// What a handler knows: where the API is, the token it sends there, and the
/// `user:password` that browsers must present.
pub struct HandlerState {
    pub api_base_url: String,
    pub api_bearer_token: String,
    pub basic_auth_credential: String,
}

/// The shared store that holds the handler's secrets.
pub const STORE_ID: &'static str = "inbox";

/// The store label of the API bearer token.
pub const BEARER_TOKEN_LABEL: &'static str = "ui-api-bearer-token";

/// The store label of the Basic credential.
pub const BASIC_AUTH_LABEL: &'static str = "ui-basic-auth";

// ---------------------------------------------------------------------
// Start-up
// ---------------------------------------------------------------------

/// The API base URL from the handler's initial state, which must be a string.
pub fn init_api_base_url(state: Option<String>) -> (r: Result<String, String>)
    ensures
        match state {
            Some(s) => r matches Ok(u) && u@ == s@,
            None => r matches Err(e) && e@ == "ui-handler init: expected init_state = string (api base url)"@,
        },
{
    match state {
        Some(s) => Ok(s),
        None => Err(owned("ui-handler init: expected init_state = string (api base url)")),
    }
}

/// The content reference of a store label, from the label lookup.
pub fn label_ref(label: &str, lookup: Result<Option<String>, String>) -> (r: Result<String, String>)
    ensures
        match lookup {
            Ok(Some(c)) => r matches Ok(x) && x@ == c@,
            Ok(None) => r matches Err(e) && e@ == label@ + " label not set (acceptor should have written it)"@,
            Err(m) => r matches Err(e) && e@ == label@ + " lookup failed: "@ + m@,
        },
{
    match lookup {
        Ok(Some(c)) => Ok(c),
        Ok(None) => {
            let mut e = owned(label);
            push_str(&mut e, " label not set (acceptor should have written it)");
            Err(e)
        },
        Err(m) => {
            let mut e = owned(label);
            push_str(&mut e, " lookup failed: ");
            push_str(&mut e, m.as_str());
            Err(e)
        },
    }
}

/// The text stored under a label, from the content read.
pub fn label_text(label: &str, content: Result<Vec<u8>, String>) -> (r: Result<String, String>)
    ensures
        match content {
            Ok(b) => if valid_utf8(b@) {
                r matches Ok(x) && x@ == decode_utf8(b@)
            } else {
                r matches Err(e) && e@ == label@ + " is not valid UTF-8"@
            },
            Err(m) => r matches Err(e) && e@ == label@ + " get failed: "@ + m@,
        },
{
    match content {
        Ok(b) => match string_from_utf8(b) {
            Some(s) => Ok(s),
            None => {
                let mut e = owned(label);
                push_str(&mut e, " is not valid UTF-8");
                Err(e)
            },
        },
        Err(m) => {
            let mut e = owned(label);
            push_str(&mut e, " get failed: ");
            push_str(&mut e, m.as_str());
            Err(e)
        },
    }
}

// ---------------------------------------------------------------------
// Dispatch
// ---------------------------------------------------------------------

/// What to do with one request.
pub enum Dispatch {
    /// Answer with these bytes.
    Respond(Vec<u8>),
    /// Read the mailbox list, then answer with `views::mailbox_list::render`.
    ListMailboxes,
    /// Read the inbox of `addr`, then answer with `views::inbox::render`.
    ListInbox { addr: String },
    /// Read message `id` of `addr`, then answer with `views::message::render`.
    ShowMessage { addr: String, id: String },
    /// Send `mail` from `from`, then answer with `views::compose::submit_result`.
    Send { from: String, mail: SendRequest },
}

/// What to do with one request, as sequences.
pub enum Action {
    Respond(Seq<u8>),
    ListMailboxes,
    ListInbox(Seq<char>),
    ShowMessage(Seq<char>, Seq<char>),
    Send(Seq<char>, SendModel),
}

impl View for Dispatch {
    type V = Action;

    open spec fn view(&self) -> Action {
        match self {
            Dispatch::Respond(b) => Action::Respond(b@),
            Dispatch::ListMailboxes => Action::ListMailboxes,
            Dispatch::ListInbox { addr } => Action::ListInbox(addr@),
            Dispatch::ShowMessage { addr, id } => Action::ShowMessage(addr@, id@),
            Dispatch::Send { from, mail } => Action::Send(from@, mail@),
        }
    }
}

/// The response that serves the stylesheet.
pub open spec fn stylesheet_response() -> Seq<u8> {
    response_bytes(200, "text/css; charset=utf-8"@, encode_utf8(STYLE_CSS@), Seq::empty())
}

/// The response that serves the icon.
pub open spec fn favicon_response() -> Seq<u8> {
    response_bytes(200, "image/svg+xml"@, encode_utf8(FAVICON_SVG@), Seq::empty())
}

/// The response that asks for credentials.
pub open spec fn challenge_response() -> Seq<u8> {
    response_bytes(401, html_type(), encode_utf8(challenge_page()), seq![challenge_header()])
}

/// `"/m/"`, the prefix of mailbox paths.
pub open spec fn mailbox_prefix() -> Seq<char> {
    seq!['/', 'm', '/']
}

/// Where an authorized request goes.
pub open spec fn route(req: RequestModel) -> Action {
    let get = req.method == "GET"@;
    if get && req.path == "/"@ {
        Action::ListMailboxes
    } else if get && req.path == "/compose"@ {
        Action::Respond(html_response(compose_page(req.query)))
    } else if req.method == "POST"@ && req.path == "/send"@ {
        let form = crate::request::form_map(req.body);
        if field(form, "from"@).len() == 0 || field(form, "to"@).len() == 0 {
            Action::Respond(error_response(400, "from and to are required"@))
        } else {
            Action::Send(field(form, "from"@), mail_of(form))
        }
    } else if is_favicon(req) {
        Action::Respond(favicon_response())
    } else if req.path.len() >= 3 && req.path.take(3) == mailbox_prefix() {
        let parts = split(req.path.skip(3), one('/'));
        if get && parts.len() == 1 {
            Action::ListInbox(parts[0])
        } else if get && parts.len() == 2 {
            Action::ShowMessage(parts[0], parts[1])
        } else {
            Action::Respond(error_response(404, "not found"@))
        }
    } else {
        Action::Respond(error_response(404, "not found"@))
    }
}

/// The request asks for the stylesheet.
pub open spec fn is_stylesheet(req: RequestModel) -> bool {
    req.method == "GET"@ && req.path == "/static/style.css"@
}

/// The request asks for the icon.
pub open spec fn is_favicon(req: RequestModel) -> bool {
    req.method == "GET"@ && req.path == "/static/favicon.svg"@
}

/// What to do with the bytes of a request, given the expected credential.
pub open spec fn dispatch_action(bytes: Seq<u8>, credential: Seq<char>) -> Action {
    match parse_request(bytes) {
        Err(e) => Action::Respond(error_response(400, "bad request: "@ + e)),
        Ok(req) => if is_stylesheet(req) {
            Action::Respond(stylesheet_response())
        } else if !authorized(req, credential) {
            Action::Respond(challenge_response())
        } else {
            route(req)
        },
    }
}

/// Decides what to do with one request: a response right away, or the read
/// or the write that the response needs. The stylesheet alone is served
/// before the credentials are checked, so that the challenge page can load
/// it; every other route, the icon included, needs them.
pub fn dispatch(request_bytes: &[u8], state: &HandlerState) -> (r: Dispatch)
    ensures
        r@ == dispatch_action(request_bytes@, state.basic_auth_credential@),
{
    let req = match Request::parse(request_bytes) {
        Ok(r) => r,
        Err(e) => {
            let mut m = owned("bad request: ");
            push_str(&mut m, e.as_str());
            return Dispatch::Respond(error(400, m.as_str()));
        },
    };
    let get = str_eq(req.method.as_str(), "GET");
    if get && str_eq(req.path.as_str(), "/static/style.css") {
        return Dispatch::Respond(css(STYLE_CSS));
    }
    if !check(&req, state.basic_auth_credential.as_str()) {
        return Dispatch::Respond(basic_auth_challenge());
    }
    if get && str_eq(req.path.as_str(), "/") {
        return Dispatch::ListMailboxes;
    }
    if get && str_eq(req.path.as_str(), "/compose") {
        return Dispatch::Respond(crate::views::compose::render(&req));
    }
    if str_eq(req.method.as_str(), "POST") && str_eq(req.path.as_str(), "/send") {
        return match crate::views::compose::submit(&req) {
            Submit::Respond(b) => Dispatch::Respond(b),
            Submit::Send { from, mail } => Dispatch::Send { from, mail },
        };
    }
    if get && str_eq(req.path.as_str(), "/static/favicon.svg") {
        return Dispatch::Respond(svg(FAVICON_SVG));
    }
    let path = chars_of(req.path.as_str());
    if path.len() >= 3 && path[0] == '/' && path[1] == 'm' && path[2] == '/' {
        assert(path@.take(3) =~= mailbox_prefix());
        let rest = copy_range(&path, 3, path.len());
        assert(rest@ =~= path@.skip(3));
        let slash = vec!['/'];
        assert(slash@ =~= one('/'));
        let parts = split_ranges(&rest, &slash);
        let ghost pieces = split(rest@, one('/'));
        if get && parts.len() == 1 {
            assert(range_holds(rest@, parts@[0], pieces[0]));
            let addr = string_of_range(&rest, parts[0].0, parts[0].1);
            return Dispatch::ListInbox { addr };
        } else if get && parts.len() == 2 {
            assert(range_holds(rest@, parts@[0], pieces[0]));
            assert(range_holds(rest@, parts@[1], pieces[1]));
            let addr = string_of_range(&rest, parts[0].0, parts[0].1);
            let id = string_of_range(&rest, parts[1].0, parts[1].1);
            return Dispatch::ShowMessage { addr, id };
        } else {
            return Dispatch::Respond(error(404, "not found"));
        }
    } else {
        assert(!(path@.len() >= 3 && path@.take(3) == mailbox_prefix())) by {
            if path@.len() >= 3 && path@.take(3) == mailbox_prefix() {
                assert(path@.take(3)[0] == '/' && path@.take(3)[1] == 'm' && path@.take(3)[2] == '/');
            }
        }
        Dispatch::Respond(error(404, "not found"))
    }
}

// ---------------------------------------------------------------------
// Laws
// ---------------------------------------------------------------------

/// Nothing is read from or written to the API for a request without the
/// expected credentials: every read or send that dispatch asks for comes
/// from a request that parsed and carried them.
pub proof fn law_reads_and_writes_need_credentials(bytes: Seq<u8>, credential: Seq<char>)
    ensures
        !(dispatch_action(bytes, credential) is Respond) ==> (parse_request(bytes) matches Ok(
            req,
        ) && authorized(req, credential)),
{
}

/// The stylesheet is served to every request for it, with or without
/// credentials, so that the challenge page itself can be styled.
pub proof fn law_stylesheet_needs_no_credentials(bytes: Seq<u8>, credential: Seq<char>)
    requires
        parse_request(bytes) matches Ok(req) && is_stylesheet(req),
    ensures
        dispatch_action(bytes, credential) == Action::Respond(stylesheet_response()),
{
}

/// The icon is served to every request for it that carries the expected
/// credentials; like every route but the stylesheet, it is answered with
/// the challenge otherwise.
pub proof fn law_favicon_needs_credentials(bytes: Seq<u8>, credential: Seq<char>)
    requires
        parse_request(bytes) matches Ok(req) && is_favicon(req),
    ensures
        dispatch_action(bytes, credential) == if authorized(parse_request(bytes)->Ok_0, credential) {
            Action::Respond(favicon_response())
        } else {
            Action::Respond(challenge_response())
        },
{
    reveal_strlit("/static/style.css");
    reveal_strlit("/static/favicon.svg");
    reveal_strlit("/");
    reveal_strlit("/compose");
    reveal_strlit("/send");
    assert("/static/style.css"@ != "/static/favicon.svg"@) by {
        assert("/static/style.css"@[8] != "/static/favicon.svg"@[8]);
    }
    assert("/static/favicon.svg"@ != "/"@ && "/static/favicon.svg"@ != "/compose"@
        && "/static/favicon.svg"@ != "/send"@) by {
        assert("/static/favicon.svg"@.len() != "/"@.len());
        assert("/static/favicon.svg"@.len() != "/compose"@.len());
        assert("/static/favicon.svg"@.len() != "/send"@.len());
    }
}

/// Every request that parses, is not for the stylesheet and lacks the
/// expected credentials is answered with the `401` challenge.
pub proof fn law_unauthorized_get_challenge(bytes: Seq<u8>, credential: Seq<char>)
    requires
        parse_request(bytes) matches Ok(req) && !is_stylesheet(req) && !authorized(req, credential),
    ensures
        dispatch_action(bytes, credential) == Action::Respond(challenge_response()),
{
}

/// A mailbox's link, `/m/<addr>`, opens its inbox: a GET of that link,
/// once the parser has decoded its path, is routed to the inbox of `addr`
/// (for an address without `/`).
#[verifier::spinoff_prover]
#[verifier::rlimit(40)]
pub proof fn law_mailbox_link_opens_inbox(addr: Seq<char>, req: RequestModel)
    requires
        lacks(addr, '/'),
        req.method == "GET"@,
        req.path == url_decoded(target_path(mailbox_link(addr))),
    ensures
        route(req) == Action::ListInbox(addr),
{
    reveal_strlit("/m/");
    reveal_strlit("/");
    reveal_strlit("/compose");
    reveal_strlit("GET");
    reveal_strlit("POST");
    let prefix = "/m/"@;
    assert(prefix =~= mailbox_prefix());
    let enc = url_encoded(addr);
    let loc = mailbox_link(addr);
    law_url_encoded_is_url_safe(addr);
    assert(lacks(loc, '?')) by {
        assert forall|i: int| 0 <= i < loc.len() implies #[trigger] loc[i] != '?' by {
            if i >= 3 {
                assert(loc[i] == enc[i - 3]);
                assert(url_safe_char(enc[i - 3]));
            }
        }
    }
    lemma_split_absent(loc, '?');
    assert(target_path(loc) == loc);
    assert(is_ascii_chars(prefix));
    lemma_plain_ascii(prefix);
    lemma_url_decoded_after_plain(prefix, addr);
    let path = req.path;
    assert(path == prefix + addr);
    assert(path.take(3) =~= mailbox_prefix());
    assert(path.skip(3) =~= addr);
    lemma_split_absent(addr, '/');
    assert(path != "/compose"@) by {
        assert(path[1] == 'm');
        assert("/compose"@[1] == 'c');
    }
    reveal_strlit("/static/favicon.svg");
    assert(path != "/static/favicon.svg"@) by {
        assert(path[1] == 'm');
        assert("/static/favicon.svg"@[1] == 's');
    }
    assert(path != "/"@) by {
        assert(path.len() >= 3);
    }
    assert("GET"@ != "POST"@) by {
        assert("GET"@.len() != "POST"@.len());
    }
    assert(split(path.skip(3), one('/')) == seq![addr]);
}

/// A message's link on an inbox page, `/m/<addr>/<id>`, opens that
/// message: a GET of the link, once the parser has decoded its path, is
/// routed to message `id` of `addr` (for an address and an id without `/`).
#[verifier::spinoff_prover]
#[verifier::rlimit(40)]
pub proof fn law_message_link_opens_message(addr: Seq<char>, id: Seq<char>, req: RequestModel)
    requires
        lacks(addr, '/'),
        lacks(id, '/'),
        req.method == "GET"@,
        req.path == url_decoded(target_path(message_link(addr, id))),
    ensures
        route(req) == Action::ShowMessage(addr, id),
{
    reveal_strlit("/m/");
    reveal_strlit("/");
    reveal_strlit("/compose");
    reveal_strlit("GET");
    reveal_strlit("POST");
    let prefix = "/m/"@;
    let slash = "/"@;
    assert(prefix =~= mailbox_prefix());
    assert(slash =~= one('/'));
    let ea = url_encoded(addr);
    let ei = url_encoded(id);
    let link = message_link(addr, id);
    assert(link == prefix + ea + slash + ei);
    law_url_encoded_is_url_safe(addr);
    law_url_encoded_is_url_safe(id);
    assert(lacks(link, '?')) by {
        assert forall|i: int| 0 <= i < link.len() implies #[trigger] link[i] != '?' by {
            if 3 <= i < 3 + ea.len() {
                assert(link[i] == ea[i - 3]);
                assert(url_safe_char(ea[i - 3]));
            } else if i > 3 + ea.len() {
                assert(link[i] == ei[i - 4 - ea.len()]);
                assert(url_safe_char(ei[i - 4 - ea.len()]));
            }
        }
    }
    lemma_split_absent(link, '?');
    assert(target_path(link) == link);
    assert(is_ascii_chars(prefix));
    assert(is_ascii_chars(slash));
    lemma_plain_ascii(prefix);
    lemma_plain_ascii(slash);
    lemma_url_decoded_link(prefix, addr, slash, id);
    let path = req.path;
    assert(path == prefix + addr + slash + id);
    assert(path.take(3) =~= mailbox_prefix());
    assert(path.skip(3) =~= addr + one('/') + id);
    lemma_split_first(addr, '/', id);
    lemma_split_absent(id, '/');
    assert(split(path.skip(3), one('/')) =~= seq![addr, id]);
    assert(path != "/compose"@) by {
        assert(path[1] == 'm');
        assert("/compose"@[1] == 'c');
    }
    reveal_strlit("/static/favicon.svg");
    assert(path != "/static/favicon.svg"@) by {
        assert(path[1] == 'm');
        assert("/static/favicon.svg"@[1] == 's');
    }
    assert(path != "/"@) by {
        assert(path.len() >= 3);
    }
    assert("GET"@ != "POST"@) by {
        assert("GET"@.len() != "POST"@.len());
    }
}

/// After a send that the API accepted, the browser is sent on to the
/// sender's mailbox link, `/m/<from>`, and a GET of that location, once the
/// parser has decoded its path, shows the inbox of the sender (for a sender
/// without `/`).
pub proof fn law_accepted_send_leads_to_sender_inbox(
    from: Seq<char>,
    status: u16,
    body: Seq<char>,
    req: RequestModel,
)
    requires
        200 <= status < 300,
        lacks(from, '/'),
        req.method == "GET"@,
        req.path == url_decoded(target_path(mailbox_link(from))),
    ensures
        submit_outcome(from, Ok((status, body))) == response_bytes(
            303,
            "text/plain"@,
            Seq::empty(),
            seq![("Location"@, mailbox_link(from))],
        ),
        route(req) == Action::ListInbox(from),
{
    law_mailbox_link_opens_inbox(from, req);
}

/// The fields of `key=E(value)`, where `key` is plain ASCII text.
proof fn lemma_pair(key: Seq<char>, value: Seq<char>)
    requires
        is_ascii_chars(key),
        forall|i: int| 0 <= i < key.len() ==> #[trigger] key[i] != '%' && key[i] != '+' && key[i]
            != '=' && key[i] != '&',
    ensures
        lacks(key + one('=') + url_encoded(value), '&'),
        pair_key_value(key + one('=') + url_encoded(value)) == (key, url_encoded(value)),
        url_decoded(key) == key,
        url_decoded(url_encoded(value)) == value,
{
    let e = url_encoded(value);
    let p = key + one('=') + e;
    lemma_url_encoded_lacks(value, '&');
    assert forall|i: int| 0 <= i < p.len() implies #[trigger] p[i] != '&' by {
        if i < key.len() {
            assert(p[i] == key[i]);
        } else if i > key.len() {
            assert(p[i] == e[i - key.len() - 1]);
        }
    }
    assert(lacks(key, '='));
    lemma_split_first(key, '=', e);
    assert(p.take(key.len() as int) =~= key);
    assert(p.skip(key.len() + 1int) =~= e);
    lemma_plain_ascii(key);
    law_url_decode_inverts_encode(value);
}

/// A GET of `/compose` is answered with the form built from its query.
proof fn lemma_compose_route(req: RequestModel)
    requires
        req.method == "GET"@,
        req.path == "/compose"@,
    ensures
        route(req) == Action::Respond(html_response(compose_page(req.query))),
{
    reveal_strlit("/compose");
    reveal_strlit("/");
    assert("/compose"@ != "/"@) by {
        assert("/compose"@.len() != "/"@.len());
    }
}

/// The query `from=E(a)&to=E(b)&subject=E(c)` holds exactly those fields.
#[verifier::spinoff_prover]
#[verifier::rlimit(40)]
proof fn lemma_three_fields(a: Seq<char>, b: Seq<char>, c: Seq<char>)
    ensures
        form_map(
            ("from"@ + one('=') + url_encoded(a)) + one('&') + (("to"@ + one('=') + url_encoded(b))
                + one('&') + ("subject"@ + one('=') + url_encoded(c))),
        ) == Map::<Seq<char>, Seq<char>>::empty().insert("from"@, a).insert("to"@, b).insert(
            "subject"@,
            c,
        ),
{
    reveal_strlit("from");
    reveal_strlit("to");
    reveal_strlit("subject");
    let p1 = "from"@ + one('=') + url_encoded(a);
    let p2 = "to"@ + one('=') + url_encoded(b);
    let p3 = "subject"@ + one('=') + url_encoded(c);
    let q = p1 + one('&') + (p2 + one('&') + p3);
    lemma_pair("from"@, a);
    lemma_pair("to"@, b);
    lemma_pair("subject"@, c);
    lemma_split_first(p1, '&', p2 + one('&') + p3);
    lemma_split_first(p2, '&', p3);
    lemma_split_absent(p3, '&');
    let pieces = split(q, one('&'));
    assert(pieces =~= seq![p1, p2, p3]);
    assert(pieces.drop_last() =~= seq![p1, p2]);
    assert(seq![p1, p2].drop_last() =~= seq![p1]);
    assert(seq![p1].drop_last() =~= Seq::<Seq<char>>::empty());
    assert(p1.len() > 0 && p2.len() > 0 && p3.len() > 0);
    let m0 = Map::<Seq<char>, Seq<char>>::empty();
    let m1 = m0.insert("from"@, a);
    let m2 = m1.insert("to"@, b);
    assert(form_fold(Seq::<Seq<char>>::empty()) == m0);
    assert(seq![p1].last() == p1);
    assert(form_fold(seq![p1]) == m1);
    assert(seq![p1, p2].last() == p2);
    assert(form_fold(seq![p1, p2]) == m2);
    assert(seq![p1, p2, p3].last() == p3);
    assert(form_fold(seq![p1, p2, p3]) == m2.insert("subject"@, c));
}

/// The reply link is a request for `/compose` with the three fields.
#[verifier::spinoff_prover]
#[verifier::rlimit(40)]
proof fn lemma_reply_link_target(addr: Seq<char>, m: MessageFull)
    ensures
        url_decoded(target_path(reply_link(addr, m))) == "/compose"@,
        target_query(reply_link(addr, m)) == ("from"@ + one('=') + url_encoded(addr)) + one('&') + ((
        "to"@ + one('=') + url_encoded(m.from@)) + one('&') + ("subject"@ + one('=') + url_encoded(
            "Re: "@ + m.subject@,
        ))),
{
    reveal_strlit("/compose?from=");
    reveal_strlit("&to=");
    reveal_strlit("&subject=");
    reveal_strlit("/compose");
    reveal_strlit("from");
    reveal_strlit("to");
    reveal_strlit("subject");
    let compose = "/compose"@;
    let q = ("from"@ + one('=') + url_encoded(addr)) + one('&') + (("to"@ + one('=') + url_encoded(
        m.from@,
    )) + one('&') + ("subject"@ + one('=') + url_encoded("Re: "@ + m.subject@)));
    let link = reply_link(addr, m);
    assert(link =~= compose + one('?') + q);
    assert(lacks(compose, '?'));
    lemma_split_first(compose, '?', q);
    assert(link.take(8) =~= compose);
    assert(link.skip(9) =~= q);
    assert(is_ascii_chars(compose));
    lemma_plain_ascii(compose);
}

/// Following the reply link of a message page opens the compose form
/// pre-filled from the mailbox, to the sender, with the subject prefixed
/// by `Re: `: the link's query, once the parser has decoded it, holds those
/// three fields, and the route answers with the form built from it.
#[verifier::spinoff_prover]
#[verifier::rlimit(40)]
pub proof fn law_reply_link_prefills_compose(addr: Seq<char>, m: MessageFull, req: RequestModel)
    requires
        req.method == "GET"@,
        req.path == url_decoded(target_path(reply_link(addr, m))),
        req.query == form_map(target_query(reply_link(addr, m))),
    ensures
        field(req.query, "from"@) == addr,
        field(req.query, "to"@) == m.from@,
        field(req.query, "subject"@) == "Re: "@ + m.subject@,
        route(req) == Action::Respond(html_response(compose_page(req.query))),
{
    reveal_strlit("from");
    reveal_strlit("to");
    reveal_strlit("subject");
    lemma_reply_link_target(addr, m);
    lemma_three_fields(addr, m.from@, "Re: "@ + m.subject@);
    assert("from"@ != "to"@ && "from"@ != "subject"@ && "to"@ != "subject"@) by {
        assert("from"@.len() != "to"@.len());
        assert("from"@.len() != "subject"@.len());
        assert("to"@.len() != "subject"@.len());
    }
    lemma_compose_route(req);
}

/// The "compose from this address" link of an inbox page opens the compose
/// form with the mailbox as sender: the link's query, once the parser has
/// decoded it, gives `from` as the address, and the route answers with the
/// form built from it.
#[verifier::spinoff_prover]
#[verifier::rlimit(40)]
pub proof fn law_compose_link_prefills_from(addr: Seq<char>, req: RequestModel)
    requires
        req.method == "GET"@,
        req.path == url_decoded(target_path(compose_link(addr))),
        req.query == form_map(target_query(compose_link(addr))),
    ensures
        field(req.query, "from"@) == addr,
        route(req) == Action::Respond(html_response(compose_page(req.query))),
{
    reveal_strlit("/compose?from=");
    reveal_strlit("/compose");
    reveal_strlit("from");
    reveal_strlit("/");
    reveal_strlit("GET");
    let compose = "/compose"@;
    let p1 = "from"@ + one('=') + url_encoded(addr);
    let link = compose_link(addr);
    assert(link =~= compose + one('?') + p1);
    assert(lacks(compose, '?'));
    lemma_split_first(compose, '?', p1);
    assert(link.take(8) =~= compose);
    assert(link.skip(9) =~= p1);
    assert(target_path(link) == compose);
    assert(target_query(link) == p1);
    assert(is_ascii_chars(compose));
    lemma_plain_ascii(compose);
    assert(req.path == compose);
    lemma_pair("from"@, addr);
    lemma_split_absent(p1, '&');
    assert(split(p1, one('&')) == seq![p1]);
    assert(seq![p1].drop_last() =~= Seq::<Seq<char>>::empty());
    assert(seq![p1].last() == p1);
    let m1 = Map::<Seq<char>, Seq<char>>::empty().insert("from"@, addr);
    assert(form_fold(Seq::<Seq<char>>::empty()) == Map::<Seq<char>, Seq<char>>::empty());
    assert(form_fold(seq![p1]) == m1);
    assert(form_map(p1) == m1);
    assert(compose != "/"@) by {
        assert(compose.len() != "/"@.len());
    }
}

/// The reply link of a message page, requested as it stands: a bare `GET`
/// of the link's bytes parses, its query gives `from` as the mailbox, `to`
/// as the sender and `subject` as `Re: ` and the subject, and the route
/// answers with the compose form built from that query.
#[verifier::spinoff_prover]
#[verifier::rlimit(40)]
pub proof fn law_reply_request_prefills_compose(addr: Seq<char>, m: MessageFull)
    ensures
        parse_request(bare_get(reply_link(addr, m))) matches Ok(req) && {
            &&& field(req.query, "from"@) == addr
            &&& field(req.query, "to"@) == m.from@
            &&& field(req.query, "subject"@) == "Re: "@ + m.subject@
            &&& route(req) == Action::Respond(html_response(compose_page(req.query)))
        },
{
    reveal_strlit("/compose?from=");
    reveal_strlit("&to=");
    reveal_strlit("&subject=");
    let e1 = url_encoded(addr);
    let e2 = url_encoded(m.from@);
    let e3 = url_encoded("Re: "@ + m.subject@);
    law_url_encoded_is_url_safe(addr);
    law_url_encoded_is_url_safe(m.from@);
    law_url_encoded_is_url_safe("Re: "@ + m.subject@);
    let l1 = "/compose?from="@;
    let l2 = "&to="@;
    let l3 = "&subject="@;
    assert(lacks(l1, ' ') && lacks(l1, '\r'));
    assert(lacks(l2, ' ') && lacks(l2, '\r'));
    assert(lacks(l3, ' ') && lacks(l3, '\r'));
    assert(lacks(e1, ' ') && lacks(e1, '\r')) by {
        assert forall|i: int| 0 <= i < e1.len() implies url_safe_char(#[trigger] e1[i]) by {}
    }
    assert(lacks(e2, ' ') && lacks(e2, '\r')) by {
        assert forall|i: int| 0 <= i < e2.len() implies url_safe_char(#[trigger] e2[i]) by {}
    }
    assert(lacks(e3, ' ') && lacks(e3, '\r')) by {
        assert forall|i: int| 0 <= i < e3.len() implies url_safe_char(#[trigger] e3[i]) by {}
    }
    let link = reply_link(addr, m);
    assert(link == l1 + e1 + l2 + e2 + l3 + e3);
    lemma_lacks_concat(l1, e1, ' ');
    lemma_lacks_concat(l1 + e1, l2, ' ');
    lemma_lacks_concat(l1 + e1 + l2, e2, ' ');
    lemma_lacks_concat(l1 + e1 + l2 + e2, l3, ' ');
    lemma_lacks_concat(l1 + e1 + l2 + e2 + l3, e3, ' ');
    lemma_lacks_concat(l1, e1, '\r');
    lemma_lacks_concat(l1 + e1, l2, '\r');
    lemma_lacks_concat(l1 + e1 + l2, e2, '\r');
    lemma_lacks_concat(l1 + e1 + l2 + e2, l3, '\r');
    lemma_lacks_concat(l1 + e1 + l2 + e2 + l3, e3, '\r');
    lemma_parse_bare_get(link);
    let req = RequestModel {
        method: "GET"@,
        path: url_decoded(target_path(link)),
        query: form_map(target_query(link)),
        headers: Map::empty(),
        body: Seq::empty(),
    };
    law_reply_link_prefills_compose(addr, m, req);
}

/// A submitted compose form whose `to` and `cc` fields list clean
/// addresses separated by commas sends exactly those addresses: the mail
/// goes from the form's sender to every `to` address and copies every `cc`
/// address, in the order given, with the form's subject and body.
#[verifier::spinoff_prover]
pub proof fn law_send_takes_the_listed_addresses(
    req: RequestModel,
    to: Seq<Seq<char>>,
    cc: Seq<Seq<char>>,
)
    requires
        req.method == "POST"@,
        req.path == "/send"@,
        field(form_map(req.body), "from"@).len() > 0,
        to.len() > 0,
        forall|i: int| 0 <= i < to.len() ==> #[trigger] clean_address(to[i]),
        forall|i: int| 0 <= i < cc.len() ==> #[trigger] clean_address(cc[i]),
        field(form_map(req.body), "to"@) == comma_list(to),
        field(form_map(req.body), "cc"@) == comma_list(cc),
    ensures
        route(req) == Action::Send(
            field(form_map(req.body), "from"@),
            SendModel {
                to,
                cc,
                subject: field(form_map(req.body), "subject"@),
                body: field(form_map(req.body), "body"@),
            },
        ),
{
    reveal_strlit("GET");
    reveal_strlit("POST");
    assert("GET"@ != "POST"@) by {
        assert("GET"@.len() != "POST"@.len());
    }
    lemma_address_list_of_comma_list(to);
    lemma_address_list_of_comma_list(cc);
    assert(clean_address(to[0]));
    assert(comma_list(to).len() > 0) by {
        if to.len() > 1 {
            assert(comma_list(to) == to[0] + one(',') + comma_list(to.drop_first()));
        }
    }
}

} // verus!
