//! Decisions of the forwarding proxy: where a request goes, which headers go with it,
//! and what a client is answered when forwarding fails.
use vstd::prelude::*;
use hyper::Uri;

verus! {

#[verifier::external_type_specification]
#[verifier::external_body]
pub struct ExUri(Uri);

/// What `<hyper::Uri as FromStr>::from_str` gives for `text`: the parsed `Uri`, or the
/// text of its `InvalidUri` error.
pub uninterp spec fn parsed_uri(text: Seq<char>) -> Result<Uri, Seq<char>>;

/// A parsed address together with the text it was parsed from.
#[derive(Debug)]
pub struct TargetUri {
    uri: Uri,
    text: String,
}

impl TargetUri {
    /// The text the address was parsed from.
    pub closed spec fn text(&self) -> Seq<char> {
        self.text@
    }

    /// The parsed address.
    pub closed spec fn parsed(&self) -> Uri {
        self.uri
    }

    /// The parsed address.
    pub fn uri(&self) -> (r: &Uri)
        ensures
            *r == self.parsed(),
    {
        &self.uri
    }

    /// The parsed address, taken out.
    pub fn into_uri(self) -> (r: Uri)
        ensures
            r == self.parsed(),
    {
        self.uri
    }
}

/// Calls `text.parse::<hyper::Uri>()`, keeping the text beside the parsed `Uri`, and
/// turns a refusal into its message. Claimed: the `Uri` or the message is `parsed_uri`
/// of the text.
#[verifier::external_body]
fn parse_uri(text: &str) -> (r: Result<TargetUri, String>)
    ensures
        match r {
            Ok(t) => parsed_uri(text@) == Ok::<Uri, Seq<char>>(t.parsed()) && t.text() == text@,
            Err(m) => parsed_uri(text@) == Err::<Uri, Seq<char>>(m@),
        },
{
    let uri = text.parse::<Uri>().map_err(|e| e.to_string())?;
    Ok(TargetUri { uri, text: text.to_string() })
}

/// The address a request is forwarded to: `http://`, the target server, then the
/// request's path and query where it has them.
pub open spec fn target_uri_of(target_server: Seq<char>, path_and_query: Option<Seq<char>>) -> Seq<
    char,
> {
    match path_and_query {
        Some(pq) => "http://"@ + target_server + pq,
        None => "http://"@ + target_server,
    }
}

/// The text of the address a request is forwarded to.
pub fn target_uri_text(target_server: &str, path_and_query: Option<&str>) -> (r: String)
    ensures
        r@ == target_uri_of(target_server@, match path_and_query {
            Some(pq) => Some(pq@),
            None => None,
        }),
{
    let mut t = "http://".to_owned();
    t.append(target_server);
    match path_and_query {
        Some(pq) => {
            t.append(pq);
        },
        None => {},
    }
    t
}

/// The address a request is forwarded to, parsed from the text `target_uri_of` gives;
/// where that text does not parse, the parser's message.
pub fn build_target_uri(target_server: &str, path_and_query: Option<&str>) -> (r: Result<
    TargetUri,
    String,
>)
    ensures
        ({
            let text = target_uri_of(target_server@, match path_and_query {
                Some(pq) => Some(pq@),
                None => None,
            });
            match r {
                Ok(t) => parsed_uri(text) == Ok::<Uri, Seq<char>>(t.parsed()) && t.text() == text,
                Err(m) => parsed_uri(text) == Err::<Uri, Seq<char>>(m@),
            }
        }),
{
    let text = target_uri_text(target_server, path_and_query);
    parse_uri(text.as_str())
}

/// `host`
pub open spec fn host_name() -> Seq<char> {
    "host"@
}

/// The headers of `headers` other than `host`, in order.
pub open spec fn without_host<V>(headers: Seq<(String, V)>) -> Seq<(String, V)> {
    headers.filter(|h: (String, V)| h.0@ != host_name())
}

fn is_host(name: &String) -> (r: bool)
    ensures
        r == (name@ == host_name()),
{
    let host = "host".to_owned();
    *name == host
}

/// The headers a forwarded request carries: those of the incoming request other than
/// `host`, in order, then `host` naming the target server.
pub fn forward_headers<V>(headers: Vec<(String, V)>, target_host: V) -> (r: Vec<(String, V)>)
    ensures
        r@.len() == without_host(headers@).len() + 1,
        r@.take(r@.len() - 1) == without_host(headers@),
        forall|i: int| 0 <= i < r@.len() - 1 ==> (#[trigger] r@[i]).0@ != host_name(),
        r@.last().0@ == host_name(),
        r@.last().1 == target_host,
{
    let ghost all = headers@;
    let mut rest = headers;
    let mut out: Vec<(String, V)> = Vec::new();
    let ghost mut k: int = 0;
    while rest.len() > 0
        invariant
            0 <= k <= all.len(),
            rest@ == all.skip(k),
            out@ == without_host(all.take(k)),
        decreases rest@.len(),
    {
        let h = rest.remove(0);
        proof {
            assert(all.take(k + 1).drop_last() =~= all.take(k));
            assert(all.take(k + 1).last() == h);
            reveal(Seq::filter);
            assert(all.skip(k).drop_first() =~= all.skip(k + 1));
        }
        if !is_host(&h.0) {
            out.push(h);
        }
        proof {
            k = k + 1;
        }
    }
    assert(all.take(k) =~= all);
    let ghost kept = out@;
    proof {
        all.filter_lemma(|h: (String, V)| h.0@ != host_name());
    }
    out.push(("host".to_owned(), target_host));
    assert(out@.take(out@.len() - 1) =~= kept);
    out
}

/// Why a request could not be forwarded, with the cause's message.
#[derive(Debug)]
pub enum ProxyFailure {
    /// The target address did not parse.
    BadTarget(String),
    /// The forwarded request could not be built.
    BuildRequest(String),
    /// The target server could not be reached or answered with an error.
    Upstream(String),
}

/// The status and body a client is answered with when its request could not be forwarded.
pub open spec fn error_reply_of(failure: ProxyFailure) -> (u16, Seq<char>) {
    match failure {
        ProxyFailure::BadTarget(m) => (400, "Bad Request: "@ + m@),
        ProxyFailure::BuildRequest(m) => (500, "Internal Server Error: "@ + m@),
        ProxyFailure::Upstream(m) => (502, "Bad Gateway: "@ + m@),
    }
}

/// The status and body a client is answered with when its request could not be forwarded.
pub fn error_reply(failure: &ProxyFailure) -> (r: (u16, String))
    ensures
        r.0 == error_reply_of(*failure).0,
        r.1@ == error_reply_of(*failure).1,
{
    match failure {
        ProxyFailure::BadTarget(m) => {
            let mut body = "Bad Request: ".to_owned();
            body.append(m.as_str());
            (400, body)
        },
        ProxyFailure::BuildRequest(m) => {
            let mut body = "Internal Server Error: ".to_owned();
            body.append(m.as_str());
            (500, body)
        },
        ProxyFailure::Upstream(m) => {
            let mut body = "Bad Gateway: ".to_owned();
            body.append(m.as_str());
            (502, body)
        },
    }
}

} // verus!
