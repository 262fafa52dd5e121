//! The four screens: mailbox list, one mailbox's inbox, one message, and
//! the compose form with its submission. Each takes what was read for it
//! and returns the response bytes.

pub mod compose;
pub mod inbox;
pub mod mailbox_list;
pub mod message;

use vstd::prelude::*;

verus! {

/// The stylesheet served at `/static/style.css`.
pub const STYLE_CSS: &'static str = "body{font-family:system-ui,sans-serif;max-width:60rem;margin:0 auto;padding:0 1rem;color:#222}\nheader{padding:.75rem 0;border-bottom:1px solid #ddd;margin-bottom:1rem}\na{color:#1a5fb4;text-decoration:none}\na:hover{text-decoration:underline}\nul.mailboxes,ul.inbox{list-style:none;padding:0}\nul.mailboxes li,ul.inbox li{padding:.4rem 0;border-bottom:1px solid #eee}\nul.inbox .from{display:inline-block;min-width:16rem;font-weight:600}\nli.empty{color:#777}\n.preview{margin-left:.75rem;color:#555}\n.preview .from{font-weight:600}\n.preview.empty{color:#777}\n.err{color:#a51d2d;background:#fbe9eb;padding:.5rem .75rem;border-radius:4px}\n.message .headers{display:grid;grid-template-columns:max-content 1fr;gap:.25rem 1rem}\n.message .headers dt{color:#777}\n.message .body{white-space:pre-wrap;background:#f6f6f6;padding:1rem;border-radius:4px}\nform.compose{display:flex;flex-direction:column;gap:.5rem}\nform.compose input,form.compose textarea{width:100%;font:inherit}\n.actions{margin:.75rem 0}\n";

/// The icon served at `/static/favicon.svg`.
pub const FAVICON_SVG: &'static str = "<svg xmlns=\"http://www.w3.org/2000/svg\" viewBox=\"0 0 16 16\"><rect x=\"1\" y=\"3\" width=\"14\" height=\"10\" rx=\"1\" fill=\"#1a5fb4\"/><path d=\"M1.5 3.5 8 9l6.5-5.5\" fill=\"none\" stroke=\"#fff\" stroke-width=\"1.5\"/></svg>\n";

} // verus!
