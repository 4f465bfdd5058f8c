//! The typed client of the HTTP API: where it asks, and what an answer means.
use crate::notify::{join_url, url_joined};
use crate::store::{debug_text, id_column, quoted, uuid_text};
use crate::text::{int_text, push_int};
use vstd::prelude::*;
use vstd::string::StringExecFns;

verus! {

#[derive(Debug, Clone, PartialEq)]
pub enum ClientError {
    Transport(String),
    Api { status: u16, message: String },
    Decode(String),
}

impl ClientError {
    pub open spec fn message_text(self) -> Seq<char> {
        match self {
            ClientError::Transport(why) => "request failed: "@ + why@,
            ClientError::Api { status, message } => "server returned "@ + int_text(status as int)
                + ": "@ + message@,
            ClientError::Decode(why) => "invalid response body: "@ + why@,
        }
    }

    pub fn message(&self) -> (r: String)
        ensures
            r@ == self.message_text(),
    {
        match self {
            ClientError::Transport(why) => "request failed: ".to_owned().concat(why.as_str()),
            ClientError::Api { status, message } => {
                let mut s = "server returned ".to_owned();
                push_int(&mut s, *status as i64);
                s.append(": ");
                s.append(message.as_str());
                s
            },
            ClientError::Decode(why) => "invalid response body: ".to_owned().concat(why.as_str()),
        }
    }
}

/// A client of the server at a base URL.
#[derive(Debug, Clone, PartialEq)]
pub struct TerrierClient {
    pub base: String,
}

impl TerrierClient {
    pub fn new(base: String) -> (r: TerrierClient)
        ensures
            r.base == base,
    {
        TerrierClient { base }
    }

    /// The URL of a path.
    pub fn url(&self, path: &str) -> (r: Result<String, ClientError>)
        ensures
            match url_joined(self.base@, path@) {
                Ok(url) => r is Ok && r->Ok_0@ == url,
                Err(why) => r is Err && r->Err_0 is Transport && r->Err_0->Transport_0@
                    == "bad url "@ + debug_text(path@) + ": "@ + why,
            },
    {
        match join_url(self.base.as_str(), path) {
            Ok(url) => Ok(url),
            Err(why) => {
                let q = quoted(path);
                Err(
                    ClientError::Transport(
                        "bad url ".to_owned().concat(q.as_str()).concat(": ").concat(why.as_str()),
                    ),
                )
            },
        }
    }
}

/// An answer with this status is an error, with its body as the message, unless
/// the status is one of success.
pub fn check_status(status: u16, message: String) -> (r: Result<(), ClientError>)
    ensures
        r == if 200 <= status <= 299 {
            Ok::<(), ClientError>(())
        } else {
            Err(ClientError::Api { status, message })
        },
{
    if status >= 200 && status <= 299 {
        Ok(())
    } else {
        Err(ClientError::Api { status, message })
    }
}

/// Where one search lives.
pub fn search_path(id: u128) -> (r: String)
    ensures
        r@ == "api/searches/"@ + uuid_text(id),
{
    let id = id_column(id);
    "api/searches/".to_owned().concat(id.as_str())
}

/// Where the verdict on a listing lives.
pub fn moderation_path(id: u128) -> (r: String)
    ensures
        r@ == "api/listings/"@ + uuid_text(id) + "/moderation"@,
{
    let id = id_column(id);
    "api/listings/".to_owned().concat(id.as_str()).concat("/moderation")
}

/// Where the listings live: all, those of a search, or the hidden ones.
pub fn listings_path(search_id: Option<u128>, hidden: bool) -> (r: String)
    ensures
        r@ == match search_id {
            Some(id) => "api/listings?search_id="@ + uuid_text(id) + "&hidden="@ + if hidden {
                "true"@
            } else {
                "false"@
            },
            None => if hidden {
                "api/listings?hidden=true"@
            } else {
                "api/listings"@
            },
        },
{
    match search_id {
        Some(id) => {
            let id = id_column(id);
            "api/listings?search_id=".to_owned().concat(id.as_str()).concat("&hidden=").concat(
                if hidden {
                    "true"
                } else {
                    "false"
                },
            )
        },
        None => if hidden {
            "api/listings?hidden=true".to_owned()
        } else {
            "api/listings".to_owned()
        },
    }
}

} // verus!
