//! What the user interface shows and decides, apart from drawing it.
pub mod communes;
pub mod listings;
pub mod searches;
pub mod settings;
pub mod sparkline;
pub mod status;

use crate::normalize::{is_web, on_the_web, parse_url, url_parts};
use crate::pipeline::{euros, whole_euros};
use crate::text::{chars_of, decimal, push_decimal, same_text, string_of, trim, trim_text};
use vstd::prelude::*;
use vstd::string::StringExecFns;

verus! {

/// The key under which a browser keeps the server's address.
pub const API_BASE_KEY: &'static str = "terrier-api-base";

/// Digits in groups of three from the right, a narrow space between them.
pub open spec fn grouped(digits: Seq<char>) -> Seq<char>
    decreases digits.len(),
{
    if digits.len() <= 3 {
        digits
    } else {
        grouped(digits.take(digits.len() - 3)).push('\u{202f}') + digits.skip(digits.len() - 3)
    }
}

fn group(digits: &[char]) -> (r: String)
    ensures
        r@ == grouped(digits@),
    decreases digits@.len(),
{
    let n: usize = digits.len();
    if n <= 3 {
        return string_of(digits);
    }
    let head = vstd::slice::slice_subrange(digits, 0, n - 3);
    let tail = vstd::slice::slice_subrange(digits, n - 3, n);
    proof {
        assert(head@ =~= digits@.take(n - 3));
        assert(tail@ =~= digits@.skip(n - 3));
    }
    let mut r = group(head);
    r.push('\u{202f}');
    let rest = string_of(tail);
    r.append(rest.as_str());
    r
}

/// A price in whole euros, its digits in groups of three.
pub open spec fn price_label(cents: int) -> Seq<char> {
    let e = whole_euros(cents);
    if e < 0 {
        seq!['-'] + grouped(decimal((-e) as nat)) + " €"@
    } else {
        grouped(decimal(e as nat)) + " €"@
    }
}

/// "32000000 cents" as "320 000 €".
pub fn format_price(cents: i64) -> (r: String)
    ensures
        r@ == price_label(cents as int),
{
    let e: i64 = euros(cents);
    let magnitude: u64 = if e < 0 {
        (-e) as u64
    } else {
        e as u64
    };
    let mut digits = String::new();
    push_decimal(&mut digits, magnitude);
    proof {
        assert(digits@ =~= decimal(magnitude as nat));
    }
    let chars = chars_of(digits.as_str());
    let text = group(chars.as_slice());
    let mut r = String::new();
    if e < 0 {
        r.push('-');
    }
    r.append(text.as_str());
    r.append(" €");
    proof {
        assert(r@ =~= price_label(cents as int));
    }
    r
}

/// What becomes of the server's address that the user typed.
#[derive(Debug, Clone, PartialEq)]
pub enum ServerChoice {
    /// Back to the automatic address.
    Forget,
    Keep(String),
}

/// The address that the user typed is kept, trimmed, where it is a URL; else it
/// is forgotten.
pub fn save_server(value: &str) -> (r: ServerChoice)
    ensures
        match r {
            ServerChoice::Keep(url) => trim(value@).len() > 0 && url_parts(trim(value@)) is Some
                && url@ == trim(value@),
            ServerChoice::Forget => trim(value@).len() == 0 || url_parts(trim(value@)) is None,
        },
{
    let trimmed = trim_text(value);
    if trimmed.as_str().is_empty() {
        return ServerChoice::Forget;
    }
    match parse_url(trimmed.as_str()) {
        Some(_) => ServerChoice::Keep(trimmed),
        None => ServerChoice::Forget,
    }
}

/// The address of the local server.
pub const LOCAL_SERVER: &'static str = "http://127.0.0.1:4810/";

/// The text that a URL is given as, normalized; nothing where it is no URL.
pub open spec fn address(text: Option<String>) -> Option<Seq<char>> {
    match text {
        Some(t) => match url_parts(t@) {
            Some(url) => Some(url.text),
            None => None,
        },
        None => None,
    }
}

/// The page came from a server of its own, not from an application bundle.
pub open spec fn is_server(origin: Option<String>) -> bool {
    origin matches Some(o) && url_parts(o@) matches Some(u) && is_web(u) && u.host != Some(
        "tauri.localhost"@,
    )
}

/// Where the API lives: where the hosting shell says, else where the user said,
/// else where the page came from when that can be the server, else the local
/// server.
pub fn resolve(
    injected: Option<String>,
    stored: Option<String>,
    origin: Option<String>,
) -> (r: String)
    ensures
        r@ == if address(injected) is Some {
            address(injected)->0
        } else if address(stored) is Some {
            address(stored)->0
        } else if is_server(origin) {
            address(origin)->0
        } else {
            LOCAL_SERVER@
        },
{
    if let Some(t) = injected {
        if let Some(parts) = parse_url(t.as_str()) {
            return parts.text;
        }
    }
    if let Some(t) = stored {
        if let Some(parts) = parse_url(t.as_str()) {
            return parts.text;
        }
    }
    if let Some(o) = origin {
        if let Some(parts) = parse_url(o.as_str()) {
            let bundled: bool = match &parts.host {
                Some(h) => same_text(h.as_str(), "tauri.localhost"),
                None => false,
            };
            if on_the_web(&parts) && !bundled {
                return parts.text;
            }
        }
    }
    LOCAL_SERVER.to_owned()
}

/// The tabs of the page.
#[derive(Debug, Clone, Copy, PartialEq, Eq, Structural)]
pub enum Tab {
    Listings,
    Searches,
    Communes,
    Settings,
    About,
}

impl Tab {
    pub fn label(self) -> (r: &'static str)
        ensures
            r@ == match self {
                Tab::Listings => "Annonces"@,
                Tab::Searches => "Recherches"@,
                Tab::Communes => "Communes"@,
                Tab::Settings => "Réglages"@,
                Tab::About => "À propos"@,
            },
    {
        match self {
            Tab::Listings => "Annonces",
            Tab::Searches => "Recherches",
            Tab::Communes => "Communes",
            Tab::Settings => "Réglages",
            Tab::About => "À propos",
        }
    }

    /// How the part of the page that belongs to this tab is displayed.
    pub fn display(self, current: Tab) -> (r: &'static str)
        ensures
            r@ == if self == current {
                ""@
            } else {
                "none"@
            },
    {
        if self == current {
            ""
        } else {
            "none"
        }
    }
}

/// What the page says of a server that cannot be reached.
pub fn unreachable_text(error: &str) -> (r: String)
    ensures
        r@ == "serveur injoignable : "@ + error@,
{
    "serveur injoignable : ".to_owned().concat(error)
}

/// What the about page says of the server.
pub fn server_line(version: &str, commit: &Option<String>, url: &str) -> (r: String)
    ensures
        r@ == version@ + " ("@ + (match *commit {
            Some(c) => c@,
            None => "unknown"@,
        }) + ") — "@ + url@,
{
    let c = match commit {
        Some(c) => c.clone(),
        None => "unknown".to_owned(),
    };
    version.to_owned().concat(" (").concat(c.as_str()).concat(") — ").concat(url)
}

} // verus!
