//! Talking to a RouterOS device over REST.
//!
//! Used against the *host* router the agent runs on, reachable at the
//! container's default gateway. The binary API is better for streaming
//! commands like `bandwidth-test`, but everything discovery needs is a simple
//! read, and REST avoids implementing the binary sentence protocol.

use vstd::prelude::*;
use vstd::string::StrSliceExecFns;
use vstd::string::StringExecFns;

use crate::duration::Duration;
use crate::json::Json;
use crate::text::push_decimal;

pub mod btest;

verus! {

#[derive(Debug, Clone, PartialEq, Eq)]
pub enum RouterOsError {
    Transport(String),
    Unauthorized,
    Http { status: u16, path: String, body: String },
    Decode(String),
}

/// What an error says.
pub open spec fn error_message(e: RouterOsError) -> Seq<char> {
    match e {
        RouterOsError::Transport(s) => "transport error talking to RouterOS: "@ + s@,
        RouterOsError::Unauthorized => "RouterOS rejected the credentials"@,
        RouterOsError::Http { status, path, body } => "RouterOS returned "@ + crate::text::decimal(
            status as nat,
        ) + " for "@ + path@ + ": "@ + body@,
        RouterOsError::Decode(s) => "could not parse the RouterOS response: "@ + s@,
    }
}

impl RouterOsError {
    pub fn message(&self) -> (r: String)
        ensures
            r@ == error_message(*self),
    {
        match self {
            RouterOsError::Transport(s) => {
                let mut t = "transport error talking to RouterOS: ".to_owned();
                t.append(s.as_str());
                t
            },
            RouterOsError::Unauthorized => "RouterOS rejected the credentials".to_owned(),
            RouterOsError::Http { status, path, body } => {
                let mut t = "RouterOS returned ".to_owned();
                push_decimal(&mut t, *status as u128);
                t.append(" for ");
                t.append(path.as_str());
                t.append(": ");
                t.append(body.as_str());
                t
            },
            RouterOsError::Decode(s) => {
                let mut t = "could not parse the RouterOS response: ".to_owned();
                t.append(s.as_str());
                t
            },
        }
    }
}

/// How to reach a device. A blank password is normal on lab and factory-default
/// routers, and refusing it would make the tool unusable exactly where it is
/// most needed.
#[derive(Debug, Clone, PartialEq, Eq)]
pub struct RouterOs {
    pub base: String,
    pub user: String,
    pub pass: String,
    /// RouterOS ships a self-signed certificate by default and the traffic
    /// never leaves the device, so with TLS any certificate is accepted.
    pub accept_any_certificate: bool,
    pub timeout: Duration,
}

/// How much of an error reply is kept.
pub const ERROR_BODY_CHARS: usize = 200;

/// What a reply from the device amounts to. A 400 usually means the menu does
/// not exist on this device (the legacy wireless stack on a wifi-only board,
/// for instance), which callers treat as "feature absent" rather than an error.
pub open spec fn is_decoded(
    status: u16,
    path: Seq<char>,
    body: Seq<char>,
    r: Result<Json, RouterOsError>,
) -> bool {
    if status == 401 {
        r matches Err(RouterOsError::Unauthorized)
    } else if !(200 <= status <= 299) {
        r matches Err(RouterOsError::Http { status: s, path: p, body: b }) && s == status && p@
            == path && b@ == (if body.len() <= ERROR_BODY_CHARS {
            body
        } else {
            body.take(ERROR_BODY_CHARS as int)
        })
    } else {
        match (crate::json::parsed_text(body), r) {
            (Ok(v), Ok(j)) => j@ == v,
            (Err(m), Err(RouterOsError::Decode(e))) => e@ == m,
            _ => false,
        }
    }
}

/// `r` talks to `host` as these options say.
pub open spec fn is_connection(
    r: RouterOs,
    host: Seq<char>,
    port: u16,
    user: Seq<char>,
    pass: Seq<char>,
    use_tls: bool,
    timeout: Duration,
) -> bool {
    &&& r.base@ == (if use_tls {
        "https"@
    } else {
        "http"@
    }) + "://"@ + host + ":"@ + crate::text::decimal(port as nat)
    &&& r.user@ == user
    &&& r.pass@ == pass
    &&& r.accept_any_certificate == use_tls
    &&& r.timeout == timeout
}

/// The name that a reply on `/system/identity` gives.
pub open spec fn identity_in(v: crate::json::JsonView) -> Seq<char> {
    match v.get("name"@) {
        Some(crate::json::JsonView::Text(s)) => s,
        _ => "unknown"@,
    }
}

/// Where a REST path is found.
pub open spec fn rest_url(base: Seq<char>, path: Seq<char>) -> Seq<char> {
    base + "/rest"@ + path
}

impl RouterOs {
    pub fn new(
        host: &str,
        port: u16,
        user: &str,
        pass: &str,
        use_tls: bool,
        timeout: Duration,
    ) -> (r: RouterOs)
        ensures
            is_connection(r, host@, port, user@, pass@, use_tls, timeout),
    {
        let mut base = if use_tls {
            "https".to_owned()
        } else {
            "http".to_owned()
        };
        base.append("://");
        base.append(host);
        base.append(":");
        push_decimal(&mut base, port as u128);
        RouterOs {
            base,
            user: user.to_owned(),
            pass: pass.to_owned(),
            accept_any_certificate: use_tls,
            timeout,
        }
    }

    /// The address of a REST path, e.g. `/ip/arp`.
    pub fn url(&self, path: &str) -> (r: String)
        ensures
            r@ == self.base@ + "/rest"@ + path@,
            r@ == rest_url(self.base@, path@),
    {
        let mut t = self.base.clone();
        t.append("/rest");
        t.append(path);
        t
    }

    /// What a reply amounts to.
    pub fn decode(status: u16, path: &str, body: &str) -> (r: Result<Json, RouterOsError>)
        ensures
            is_decoded(status, path@, body@, r),
    {
        if status == 401 {
            return Err(RouterOsError::Unauthorized);
        }
        if status < 200 || status > 299 {
            let n: usize = body.unicode_len();
            let kept = if n <= ERROR_BODY_CHARS {
                body
            } else {
                proof {
                    assert(body@.subrange(0, ERROR_BODY_CHARS as int) =~= body@.take(
                        ERROR_BODY_CHARS as int,
                    ));
                }
                body.substring_char(0, ERROR_BODY_CHARS)
            };
            return Err(
                RouterOsError::Http { status, path: path.to_owned(), body: kept.to_owned() },
            );
        }
        match Json::parse(body) {
            Ok(v) => Ok(v),
            Err(e) => Err(RouterOsError::Decode(e)),
        }
    }

    /// The device's name, out of its reply on `/system/identity`.
    pub fn identity(v: &Json) -> (r: String)
        ensures
            r@ == (match v@.get("name"@) {
                Some(crate::json::JsonView::Text(s)) => s,
                _ => "unknown"@,
            }),
            r@ == identity_in(v@),
    {
        match v.get("name") {
            Some(Json::Text(s)) => s.clone(),
            _ => "unknown".to_owned(),
        }
    }
}

/// A connection goes to the host and port that are given, over HTTPS exactly
/// where that is asked for, and with the credentials given.
pub proof fn law_where_a_connection_goes(
    r: RouterOs,
    host: Seq<char>,
    port: u16,
    user: Seq<char>,
    pass: Seq<char>,
    use_tls: bool,
    timeout: Duration,
)
    requires
        is_connection(r, host, port, user, pass, use_tls, timeout),
    ensures
        use_tls ==> r.base@ == "https"@ + "://"@ + host + ":"@ + crate::text::decimal(port as nat),
        !use_tls ==> r.base@ == "http"@ + "://"@ + host + ":"@ + crate::text::decimal(port as nat),
        r.user@ == user,
        r.pass@ == pass,
        r.accept_any_certificate <==> use_tls,
        r.timeout == timeout,
{
}

/// A reply of the device is taken by its status: 401 refuses the credentials;
/// from 200 to 299 its body is read; any other is an error that gives the
/// status, the path, and the front of the body, 200 characters at most.
pub proof fn law_replies_of_the_device(
    status: u16,
    path: Seq<char>,
    body: Seq<char>,
    r: Result<Json, RouterOsError>,
)
    requires
        is_decoded(status, path, body, r),
    ensures
        (r is Err && r->Err_0 is Unauthorized) <==> status == 401,
        (r is Err && r->Err_0 is Http) <==> status != 401 && (status < 200 || status >= 300),
        r is Err && r->Err_0 is Http ==> {
            &&& r->Err_0->Http_status == status
            &&& r->Err_0->Http_path@ == path
            &&& r->Err_0->Http_body@.len() <= 200
            &&& body.len() <= 200 ==> r->Err_0->Http_body@ == body
            &&& body.len() > 200 ==> r->Err_0->Http_body@ == body.take(200)
        },
        200 <= status < 300 ==> (r is Ok <==> crate::json::parsed_text(body) is Ok),
        r is Ok ==> r->Ok_0@ == crate::json::parsed_text(body)->Ok_0,
{
}

/// A device goes by the name it gives, and is unknown where it gives none; its
/// tables are found under `/rest`.
pub proof fn law_what_a_device_goes_by(v: crate::json::JsonView, s: Seq<char>, base: Seq<char>)
    ensures
        v.get("name"@) == Some(crate::json::JsonView::Text(s)) ==> identity_in(v) == s,
        v.get("name"@) is None ==> identity_in(v) == "unknown"@,
        rest_url(base, s) == base + "/rest"@ + s,
{
}

} // verus!
