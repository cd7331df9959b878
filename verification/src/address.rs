//! Where a client would have to reach this server, as far as its request says.
//!
//! An address built from what the listener bound to is unreachable the moment
//! anything sits in front of it. The headers read here are what a proxy leaves
//! behind, in descending order of how deliberate they are: an explicit override
//! first, then `Forwarded`, then the `X-Forwarded-*` family, then the request's
//! own `Host`.

use vstd::prelude::*;

use crate::output;
use crate::text;
use crate::text::{same, split, split_once, strip_end, strip_start, to_ascii_lowercase, trim};
use crate::tool;

verus! {

/// The head of a request.
#[derive(Debug)]
pub struct RequestHead {
    /// The headers in order, each under its name in lower case. A value that is
    /// no readable text is `None`.
    pub headers: Vec<(String, Option<String>)>,
    /// The authority of the request's own URI.
    pub authority: Option<String>,
    /// The scheme of the request's own URI.
    pub scheme: Option<String>,
}

/// What a [`RequestHead`] says.
pub struct HeadView {
    pub headers: Seq<(Seq<char>, Option<Seq<char>>)>,
    pub authority: Option<Seq<char>>,
    pub scheme: Option<Seq<char>>,
}

impl View for RequestHead {
    type V = HeadView;

    open spec fn view(&self) -> HeadView {
        HeadView {
            headers: Seq::new(
                self.headers@.len(),
                |i: int| (self.headers@[i].0@, tool::opt_text(self.headers@[i].1)),
            ),
            authority: tool::opt_text(self.authority),
            scheme: tool::opt_text(self.scheme),
        }
    }
}

/// The value of the first header of a name at or after a position.
pub open spec fn header_from(
    headers: Seq<(Seq<char>, Option<Seq<char>>)>,
    name: Seq<char>,
    from: int,
) -> Option<Seq<char>>
    decreases headers.len() - from,
{
    if from >= headers.len() {
        None
    } else if headers[from].0 == name {
        headers[from].1
    } else {
        header_from(headers, name, from + 1)
    }
}

/// The first header of a name at or after a position, readable or not.
pub open spec fn entry_from(
    headers: Seq<(Seq<char>, Option<Seq<char>>)>,
    name: Seq<char>,
    from: int,
) -> Option<Option<Seq<char>>>
    decreases headers.len() - from,
{
    if from >= headers.len() {
        None
    } else if headers[from].0 == name {
        Some(headers[from].1)
    } else {
        entry_from(headers, name, from + 1)
    }
}

impl HeadView {
    /// The value of the first header of a name, where it is readable.
    pub open spec fn header(self, name: Seq<char>) -> Option<Seq<char>> {
        header_from(self.headers, name, 0)
    }

    /// The first header of a name, readable or not.
    pub open spec fn entry(self, name: Seq<char>) -> Option<Option<Seq<char>>> {
        entry_from(self.headers, name, 0)
    }
}

/// What an optional header says.
pub open spec fn opt_entry(entry: Option<Option<&str>>) -> Option<Option<Seq<char>>> {
    match entry {
        Some(value) => Some(output::opt_str(value)),
        None => None,
    }
}

/// The first header of a name, readable or not.
pub fn find_header<'a>(head: &'a RequestHead, name: &str) -> (res: Option<Option<&'a str>>)
    ensures
        opt_entry(res) == head@.entry(name@),
{
    let mut i: usize = 0;
    while i < head.headers.len()
        invariant
            i <= head.headers.len(),
            head@.entry(name@) == entry_from(head@.headers, name@, i as int),
        decreases head.headers.len() - i,
    {
        assert(head@.headers[i as int].0 == head.headers@[i as int].0@);
        if same(head.headers[i].0.as_str(), name) {
            return match &head.headers[i].1 {
                Some(value) => Some(Some(value.as_str())),
                None => Some(None),
            };
        }
        i += 1;
    }
    None
}

/// What stands before the first occurrence of a character.
pub open spec fn upto(s: Seq<char>, mark: char) -> Seq<char> {
    s.take(text::index_from(s, mark, 0))
}

/// A text without the quotes at its two ends.
pub open spec fn unquoted(s: Seq<char>) -> Seq<char> {
    text::end_stripped(text::start_stripped(s, '"'), '"')
}

/// What `Forwarded` says of where a server is reached.
pub struct Forwarded {
    pub scheme: Option<Seq<char>>,
    pub host: Option<Seq<char>>,
}

impl Forwarded {
    /// With one more parameter read. A later parameter of a name wins, and one of
    /// another name says nothing here.
    pub open spec fn read(self, parameter: Seq<char>) -> Forwarded {
        let tight = text::trimmed(parameter);
        let at = text::index_from(tight, '=', 0);
        if at < tight.len() {
            let name = text::ascii_lowered(text::trimmed(tight.take(at)));
            let value = unquoted(text::trimmed(tight.skip(at + 1)));
            if name == "proto"@ {
                Forwarded { scheme: Some(value), ..self }
            } else if name == "host"@ {
                Forwarded { host: Some(value), ..self }
            } else {
                self
            }
        } else {
            self
        }
    }
}

/// What a list of parameters says.
pub open spec fn forwarded_params(parameters: Seq<Seq<char>>) -> Forwarded
    decreases parameters.len(),
{
    if parameters.len() == 0 {
        Forwarded { scheme: None, host: None }
    } else {
        forwarded_params(parameters.drop_last()).read(parameters.last())
    }
}

/// What a `Forwarded` header says: its first element counts.
pub open spec fn forwarded(value: Seq<char>) -> Forwarded {
    forwarded_params(text::pieces(upto(value, ','), ';'))
}

/// The scheme, authority and path that `http::Uri` reads in a text.
pub uninterp spec fn uri_parts(
    source: Seq<char>,
) -> Option<(Option<Seq<char>>, Option<Seq<char>>, Seq<char>)>;

/// What the parts of a URI say.
pub open spec fn opt_parts(
    parts: Option<(Option<String>, Option<String>, String)>,
) -> Option<(Option<Seq<char>>, Option<Seq<char>>, Seq<char>)> {
    match parts {
        Some((scheme, authority, path)) => Some(
            (tool::opt_text(scheme), tool::opt_text(authority), path@),
        ),
        None => None,
    }
}

/// `http::Uri`'s `FromStr`, with its `scheme_str`, `authority` and `path`:
/// nothing where the text is no URI.
#[verifier::external_body]
fn read_uri(source: &str) -> (res: Option<(Option<String>, Option<String>, String)>)
    ensures
        opt_parts(res) == uri_parts(source@),
{
    let uri: http::Uri = source.parse().ok()?;
    Some(
        (
            uri.scheme_str().map(str::to_owned),
            uri.authority().map(|authority| authority.as_str().to_owned()),
            uri.path().to_owned(),
        ),
    )
}

/// The base URL that the parts of a URI make, where they are those of an `http`
/// or `https` URL with a host.
pub open spec fn http_base(
    parts: Option<(Option<Seq<char>>, Option<Seq<char>>, Seq<char>)>,
) -> Option<Seq<char>> {
    match parts {
        Some((Some(scheme), Some(authority), path)) => if scheme == "http"@ || scheme
            == "https"@ {
            Some(scheme + "://"@ + authority + text::end_stripped(path, '/'))
        } else {
            None
        },
        _ => None,
    }
}

/// The base URL that the parts of a URI make, where they are those of an `http`
/// or `https` URL with a host.
pub fn base_of_parts(parts: Option<(Option<String>, Option<String>, String)>) -> (res: Option<
    String,
>)
    ensures
        tool::opt_text(res) == http_base(opt_parts(parts)),
{
    let (scheme, authority, path) = match parts {
        Some(parts) => parts,
        None => return None,
    };
    match (scheme, authority) {
        (Some(scheme), Some(authority)) => {
            if !same(scheme.as_str(), "http") && !same(scheme.as_str(), "https") {
                return None;
            }
            let mut out = scheme;
            out.append("://");
            out.append(authority.as_str());
            out.append(strip_end(path.as_str(), '/'));
            Some(out)
        },
        _ => None,
    }
}

/// The host a request says it was sent to.
pub open spec fn requested_host(head: HeadView) -> Option<Seq<char>> {
    match head.header("x-forwarded-host"@) {
        Some(host) => Some(host),
        None => match head.header("host"@) {
            Some(host) => Some(host),
            None => head.authority,
        },
    }
}

/// The first element of a header.
pub open spec fn first_element(value: Option<Seq<char>>) -> Option<Seq<char>> {
    match value {
        Some(value) => Some(text::trimmed(upto(value, ','))),
        None => None,
    }
}

/// The address that the `X-Forwarded-*` headers, or the request itself, name.
pub open spec fn plain_candidate(head: HeadView, host: Seq<char>) -> Seq<char> {
    let scheme = match first_element(head.header("x-forwarded-proto"@)) {
        Some(scheme) => scheme,
        None => match head.scheme {
            Some(scheme) => scheme,
            None => "http"@,
        },
    };
    let prefix = text::end_stripped(
        text::start_stripped(
            match first_element(head.header("x-forwarded-prefix"@)) {
                Some(prefix) => prefix,
                None => Seq::empty(),
            },
            '/',
        ),
        '/',
    );
    let base = scheme + "://"@ + text::trimmed(upto(host, ','));
    if prefix.len() == 0 {
        base
    } else {
        base + "/"@ + prefix
    }
}

/// The address that a `Forwarded` header names.
pub open spec fn forwarded_candidate(said: Forwarded) -> Seq<char> {
    (match said.scheme {
        Some(scheme) => scheme,
        None => "http"@,
    }) + "://"@ + said.host->0
}

/// The address that a request names, before it is checked.
pub open spec fn candidate(head: HeadView) -> Option<Seq<char>> {
    match head.header("x-vibrev-external-base"@) {
        Some(base) => Some(base),
        None => match head.header("forwarded"@) {
            Some(value) if forwarded(value).host is Some => Some(
                forwarded_candidate(forwarded(value)),
            ),
            _ => match requested_host(head) {
                Some(host) => Some(plain_candidate(head, host)),
                None => None,
            },
        },
    }
}

fn header_value<'a>(head: &'a RequestHead, name: &str) -> (res: Option<&'a str>)
    ensures
        output::opt_str(res) == head@.header(name@),
{
    let mut i: usize = 0;
    while i < head.headers.len()
        invariant
            i <= head.headers.len(),
            head@.header(name@) == header_from(head@.headers, name@, i as int),
        decreases head.headers.len() - i,
    {
        assert(head@.headers[i as int].0 == head.headers@[i as int].0@);
        if same(head.headers[i].0.as_str(), name) {
            return match &head.headers[i].1 {
                Some(value) => Some(value.as_str()),
                None => None,
            };
        }
        i += 1;
    }
    None
}

fn before_mark(s: &str, mark: char) -> (res: &str)
    ensures
        res@ == upto(s@, mark),
{
    match split_once(s, mark) {
        Some((head, _)) => head,
        None => {
            assert(s@.take(s@.len() as int) =~= s@);
            s
        },
    }
}

fn read_forwarded(value: &str) -> (res: (Option<String>, Option<String>))
    ensures
        tool::opt_text(res.0) == forwarded(value@).scheme,
        tool::opt_text(res.1) == forwarded(value@).host,
{
    let parameters = split(before_mark(value, ','), ';');
    let ghost all = text::texts(parameters@);
    let mut scheme: Option<String> = None;
    let mut host: Option<String> = None;
    let mut i: usize = 0;
    assert(all.take(0) =~= Seq::empty());
    while i < parameters.len()
        invariant
            i <= parameters.len(),
            all == text::texts(parameters@),
            tool::opt_text(scheme) == forwarded_params(all.take(i as int)).scheme,
            tool::opt_text(host) == forwarded_params(all.take(i as int)).host,
        decreases parameters.len() - i,
    {
        assert(all.take(i + 1).drop_last() =~= all.take(i as int));
        assert(all.take(i + 1).last() == parameters@[i as int]@);
        let tight = trim(parameters[i].as_str());
        if let Some((name, rest)) = split_once(tight, '=') {
            let bare = strip_end(strip_start(trim(rest), '"'), '"');
            let lower = to_ascii_lowercase(trim(name));
            if same(lower.as_str(), "proto") {
                scheme = Some(bare.to_owned());
            } else if same(lower.as_str(), "host") {
                host = Some(bare.to_owned());
            }
        }
        i += 1;
    }
    assert(all.take(all.len() as int) =~= all);
    (scheme, host)
}

/// The address that a request names, before it is checked.
pub fn named_address(head: &RequestHead) -> (res: Option<String>)
    ensures
        tool::opt_text(res) == candidate(head@),
{
    if let Some(base) = header_value(head, "x-vibrev-external-base") {
        return Some(base.to_owned());
    }
    if let Some(value) = header_value(head, "forwarded") {
        let (scheme, host) = read_forwarded(value);
        if let Some(host) = host {
            let mut out = match scheme {
                Some(scheme) => scheme,
                None => "http".to_owned(),
            };
            out.append("://");
            out.append(host.as_str());
            return Some(out);
        }
    }
    let host = match header_value(head, "x-forwarded-host") {
        Some(host) => host,
        None => match header_value(head, "host") {
            Some(host) => host,
            None => match &head.authority {
                Some(host) => host.as_str(),
                None => return None,
            },
        },
    };
    let mut out = match header_value(head, "x-forwarded-proto") {
        Some(value) => trim(before_mark(value, ',')).to_owned(),
        None => match &head.scheme {
            Some(scheme) => scheme.clone(),
            None => "http".to_owned(),
        },
    };
    let prefix = match header_value(head, "x-forwarded-prefix") {
        Some(value) => trim(before_mark(value, ',')),
        None => "",
    };
    assert(head@.header("x-forwarded-prefix"@) is None ==> prefix@ =~= Seq::<char>::empty()) by {
        reveal_strlit("");
    }
    let bare = strip_end(strip_start(prefix, '/'), '/');
    out.append("://");
    out.append(trim(before_mark(host, ',')));
    if !bare.is_empty() {
        out.append("/");
        out.append(bare);
    }
    Some(out)
}

/// Where a client would have to reach this server, as far as its request says.
///
/// Nothing for anything that is not an `http` or `https` URL with a host, so a
/// header cannot put an arbitrary scheme into the answer.
pub fn external_base_url(head: &RequestHead) -> (res: Option<String>)
    ensures
        tool::opt_text(res) == (match candidate(head@) {
            Some(address) => http_base(uri_parts(address)),
            None => None,
        }),
{
    match named_address(head) {
        Some(address) => base_of_parts(read_uri(address.as_str())),
        None => None,
    }
}

// ---------------------------------------------------------------------------
// Laws
// ---------------------------------------------------------------------------

/// No header can put another scheme into the answer: whatever a URI was read as,
/// the base URL it makes starts with `http://` or `https://`.
pub proof fn only_http_is_handed_out(
    parts: Option<(Option<Seq<char>>, Option<Seq<char>>, Seq<char>)>,
)
    ensures
        match http_base(parts) {
            Some(base) => text::begins(base, "http://"@) || text::begins(base, "https://"@),
            None => true,
        },
{
    reveal_strlit("http");
    reveal_strlit("https");
    reveal_strlit("://");
    reveal_strlit("http://");
    reveal_strlit("https://");
    if let Some(base) = http_base(parts) {
        let (scheme, authority, path) = parts->0;
        let rest = authority->0 + text::end_stripped(path, '/');
        let head = scheme->0 + "://"@;
        assert(base =~= head + rest);
        if scheme->0 == "http"@ {
            assert(head =~= "http://"@);
            assert(base.take("http://"@.len() as int) =~= "http://"@);
        } else {
            assert(head =~= "https://"@);
            assert(base.take("https://"@.len() as int) =~= "https://"@);
        }
    }
}

/// An explicit override wins over every other header.
pub proof fn override_wins(head: HeadView)
    requires
        head.header("x-vibrev-external-base"@) is Some,
    ensures
        candidate(head) == head.header("x-vibrev-external-base"@),
{
}

} // verus!
