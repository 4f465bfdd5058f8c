//! Where notifications go: an ntfy topic, or nowhere.
use crate::config::NotificationsConfig;
use crate::text::{chars_of, trim, trim_text};
use vstd::prelude::*;
use vstd::string::StringExecFns;

verus! {

pub uninterp spec fn url_joined(base: Seq<char>, path: Seq<char>) -> Result<Seq<char>, Seq<char>>;

/// `url::Url::join` on a parsed base: the path resolved against the base URL, or
/// the text of the error, be it the base's or the path's. The name `url_joined`
/// stands for either.
#[verifier::external_body]
pub(crate) fn join_url(base: &str, path: &str) -> (r: Result<String, String>)
    ensures
        match r {
            Ok(url) => url_joined(base@, path@) == Ok::<Seq<char>, Seq<char>>(url@),
            Err(why) => url_joined(base@, path@) == Err::<Seq<char>, Seq<char>>(why@),
        },
{
    url::Url::parse(base).and_then(|u| u.join(path)).map(String::from).map_err(|e| e.to_string())
}

/// Publishes to a topic of an ntfy server.
#[derive(Debug, Clone, PartialEq)]
pub struct NtfyNotifier {
    /// `{ntfy_url}/{topic}`: a plain POST to it publishes.
    pub endpoint: String,
    pub token: Option<String>,
}

/// What joining the topic onto the server's URL says when it fails.
pub open spec fn join_failure(base: Seq<char>, why: Seq<char>) -> Seq<char> {
    "joining ntfy topic onto "@ + base + ": "@ + why
}

/// The URL with a slash at its end, so that what is joined onto it comes behind
/// its whole path.
pub open spec fn slashed(base: Seq<char>) -> Seq<char> {
    if base.len() > 0 && base.last() == '/' {
        base
    } else {
        base.push('/')
    }
}

fn with_slash(base: &str) -> (r: String)
    ensures
        r@ == slashed(base@),
{
    let chars = chars_of(base);
    let mut r = base.to_owned();
    if chars.len() == 0 || chars[chars.len() - 1] != '/' {
        r.push('/');
    }
    r
}

impl NtfyNotifier {
    /// Nothing when notifications are not configured (`ntfy_url` unset). A set
    /// URL needs a topic. The token is not read yet.
    pub fn new(config: &NotificationsConfig) -> (r: Result<Option<NtfyNotifier>, String>)
        ensures
            match config.ntfy_url {
                None => r == Ok::<Option<NtfyNotifier>, String>(None),
                Some(base) => if trim(config.topic@).len() == 0 {
                    r is Err && r->Err_0@
                        == "notifications.ntfy_url is set but notifications.topic is empty"@
                } else {
                    match url_joined(slashed(base@), trim(config.topic@)) {
                        Ok(url) => r is Ok && r->Ok_0 is Some && r->Ok_0->0.endpoint@ == url
                            && r->Ok_0->0.token is None,
                        Err(why) => r is Err && r->Err_0@ == join_failure(base@, why),
                    }
                },
            },
    {
        let base = match &config.ntfy_url {
            None => {
                return Ok(None);
            },
            Some(b) => b,
        };
        let topic = trim_text(config.topic.as_str());
        if topic.as_str().is_empty() {
            return Err(
                "notifications.ntfy_url is set but notifications.topic is empty".to_owned(),
            );
        }
        let server = with_slash(base.as_str());
        match join_url(server.as_str(), topic.as_str()) {
            Ok(endpoint) => Ok(Some(NtfyNotifier { endpoint, token: None })),
            Err(why) => Err(
                "joining ntfy topic onto ".to_owned().concat(base.as_str()).concat(": ").concat(
                    why.as_str(),
                ),
            ),
        }
    }

    /// Takes the token from the contents of its file.
    pub fn with_token(self, contents: &str) -> (r: NtfyNotifier)
        ensures
            r.endpoint == self.endpoint,
            r.token is Some,
            r.token->0@ == trim(contents@),
    {
        NtfyNotifier { endpoint: self.endpoint, token: Some(trim_text(contents)) }
    }
}

} // verus!
