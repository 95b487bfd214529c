//! The API's envelope: authentication, addresses, replies, certificates.
use vstd::prelude::*;
use vstd::string::*;

use crate::json::{json_reads, member, read_json, tidied, Json, JsonView};
use crate::provider::ProviderError;
use crate::scan::{has_prefix, lines, lines_of, starts_with, trim, trimmed};
use crate::text::texts;

verus! {

/// What came of sending a request.
pub enum Sent {
    /// No answer before the deadline.
    TimedOut(String),
    /// No answer at all.
    Failed(String),
    Answered { status: u16, body: String },
}

/// Where a request goes.
pub fn url(api: &str, path: &str) -> (r: String)
    ensures
        r@ == api@ + "/api2/json"@ + path@,
{
    api.to_string().concat("/api2/json").concat(path)
}

/// The value of the authorization header. Case-sensitive, and the API says
/// nothing useful when it is wrong.
pub fn auth(token: &str) -> (r: String)
    ensures
        r@ == "PVEAPIToken="@ + token@,
{
    "PVEAPIToken=".to_string().concat(token)
}

/// A reply once the API's envelope is off: the data in it, or what went wrong.
pub open spec fn unwrapped(sent: Sent, path: Seq<char>) -> Result<
    JsonView,
    ProviderError<Seq<char>>,
> {
    match sent {
        Sent::TimedOut(m) => Err(ProviderError::Timeout(path + ": "@ + m@)),
        Sent::Failed(m) => Err(ProviderError::Transport(path + ": "@ + m@)),
        Sent::Answered { status, body } => {
            if !(200 <= status < 300) {
                let message = path + ": "@ + trim(body@);
                if status == 401 || status == 403 {
                    Err(ProviderError::Unauthorized(message))
                } else if status == 404 {
                    Err(ProviderError::NotFound(message))
                } else {
                    Err(ProviderError::Api { status, message })
                }
            } else {
                match json_reads(body@) {
                    Err(e) => Err(
                        ProviderError::Api {
                            status,
                            message: path + ": reply was not JSON: "@ + e,
                        },
                    ),
                    Ok(tree) => match member(tidied(tree), "data"@) {
                        Some(data) => Ok(data),
                        None => Err(
                            ProviderError::Api {
                                status,
                                message: path + ": reply carried no data field"@,
                            },
                        ),
                    },
                }
            }
        },
    }
}

/// The data in a reply that was read.
pub fn data_of(tree: &Json, status: u16, path: &str) -> (r: Result<Json, ProviderError>)
    ensures
        match r {
            Ok(j) => member(tree@, "data"@) == Some(j@),
            Err(e) => member(tree@, "data"@) is None && e@ == (ProviderError::Api {
                status,
                message: path@ + ": reply carried no data field"@,
            }),
        },
{
    match tree.get("data") {
        Some(data) => Ok(data.copy()),
        None => Err(
            ProviderError::Api {
                status,
                message: path.to_string().concat(": reply carried no data field"),
            },
        ),
    }
}

/// Unwrap the `{"data": ...}` envelope, turning transport and status failures
/// into errors the core knows how to reason about.
pub fn envelope(sent: Sent, path: &str) -> (r: Result<Json, ProviderError>)
    ensures
        match r {
            Ok(j) => unwrapped(sent, path@) == Ok::<JsonView, ProviderError<Seq<char>>>(j@),
            Err(e) => unwrapped(sent, path@) == Err::<JsonView, ProviderError<Seq<char>>>(e@),
        },
{
    match sent {
        Sent::TimedOut(m) => Err(
            ProviderError::Timeout(path.to_string().concat(": ").concat(m.as_str())),
        ),
        Sent::Failed(m) => Err(
            ProviderError::Transport(path.to_string().concat(": ").concat(m.as_str())),
        ),
        Sent::Answered { status, body } => {
            if !(200 <= status && status < 300) {
                let message = path.to_string().concat(": ").concat(
                    trimmed(body.as_str()).as_str(),
                );
                return Err(
                    if status == 401 || status == 403 {
                        ProviderError::Unauthorized(message)
                    } else if status == 404 {
                        ProviderError::NotFound(message)
                    } else {
                        ProviderError::Api { status, message }
                    },
                );
            }
            match read_json(body.as_str()) {
                Err(e) => Err(
                    ProviderError::Api {
                        status,
                        message: path.to_string().concat(": reply was not JSON: ").concat(
                            e.as_str(),
                        ),
                    },
                ),
                Ok(tree) => data_of(&tree.tidy_up(), status, path),
            }
        },
    }
}

// ---------------------------------------------------------------------------
// Certificates
// ---------------------------------------------------------------------------

/// The blocks that lines hold, and the one that is still open, if any: a block
/// starts at a BEGIN line and ends with the END line after it.
pub open spec fn pem_state(l: Seq<Seq<char>>) -> (Seq<Seq<char>>, Option<Seq<char>>)
    decreases l.len(),
{
    if l.len() == 0 {
        (Seq::empty(), None)
    } else {
        let before = pem_state(l.drop_last());
        let line = l.last();
        let open = if starts_with(line, "-----BEGIN "@) {
            Some(Seq::<char>::empty())
        } else {
            before.1
        };
        match open {
            None => (before.0, None),
            Some(b) => {
                let more = b + line + "\n"@;
                if starts_with(line, "-----END "@) {
                    (before.0.push(more), None)
                } else {
                    (before.0, Some(more))
                }
            },
        }
    }
}

/// The PEM blocks of a bundle, each with its BEGIN/END lines intact.
pub fn pem_blocks(text: &str) -> (r: Vec<String>)
    ensures
        texts(r@) == pem_state(lines(text@)).0,
{
    let all = lines_of(text);
    let ghost l = texts(all@);
    let mut blocks: Vec<String> = Vec::new();
    let mut current: Option<String> = None;
    let mut i: usize = 0;
    assert(texts(blocks@) =~= Seq::empty());
    while i < all.len()
        invariant
            i <= all@.len(),
            l == texts(all@),
            texts(blocks@) == pem_state(l.take(i as int)).0,
            crate::paths::maybe(current) == pem_state(l.take(i as int)).1,
        decreases all@.len() - i,
    {
        let ghost was = blocks@;
        assert(l.take(i + 1).drop_last() =~= l.take(i as int));
        assert(l.take(i + 1).last() == all@[i as int]@);
        let line = all[i].as_str();
        let open = if has_prefix(line, "-----BEGIN ") {
            Some(String::new())
        } else {
            current
        };
        match open {
            None => {
                current = None;
            },
            Some(b) => {
                let more = b.concat(line).concat("\n");
                if has_prefix(line, "-----END ") {
                    blocks.push(more);
                    current = None;
                    assert(texts(blocks@) =~= texts(was).push(more@));
                } else {
                    current = Some(more);
                }
            },
        }
        i += 1;
    }
    assert(l.take(all@.len() as int) =~= l);
    blocks
}

/// What is wrong with a certificate bundle, as far as its text shows it: that
/// it holds no certificate at all.
pub fn no_certificate(path: &str) -> (r: ProviderError)
    ensures
        r@ == ProviderError::Config("ca_file "@ + path@ + " holds no certificate at all"@),
{
    ProviderError::Config(
        "ca_file ".to_string().concat(path).concat(" holds no certificate at all"),
    )
}

}
