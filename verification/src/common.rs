//! Client errors, command-line values, and the parameter resolver: the step
//! that turns a target URL, an optional proxy host and port, and the raw
//! method/header/body strings into a fully resolved connection plan.

use vstd::prelude::*;
use vstd::string::*;
use crate::headers::Headers;
use crate::headers::insert_entry;
use crate::headers::keys_unique;
use crate::scan::find_from;
use crate::scan::lemma_split_char_len;
use crate::scan::scan_find;
use crate::scan::split_by_char;
use crate::scan::split_char;
use crate::scan::subvec;
use crate::scan::trim_chars;
use crate::scan::trim_seq;
use crate::text::chars_to_string;
use crate::text::dec_chars_u16;
use crate::text::dec_seq;
use crate::text::str_to_chars;

verus! {

/// The kinds of failure the client surfaces to its caller.
#[derive(Clone, Copy, Debug, PartialEq, Eq, Structural)]
pub enum ClientErrorType {
    IncorrectSocketAddr,
    UnparseableUrl,
    ConnectionFailure,
    UnsupportedScheme,
    Unimplemented,
    NoAvailableTcpStream,
    WriteError,
    NoResponse,
}

/// A client error: its kind and a message describing it.
#[derive(Debug)]
pub struct ClientError {
    pub error_type: ClientErrorType,
    pub message: String,
}

impl ClientError {
    /// Wraps an error kind and a message.
    pub fn new(error_type: ClientErrorType, message: String) -> (r: ClientError)
        ensures
            r.error_type == error_type,
            r.message == message,
    {
        ClientError { error_type, message }
    }
}

/// The raw command-line values: a target URL and the optional proxy host and
/// port, timeout in milliseconds, method, body, and comma-separated header
/// string. The shell around the library fills this in; resolution turns it
/// into [`Parameters`].
pub struct Arguments {
    pub url: String,
    pub connection_timeout: Option<u64>,
    pub proxyhost: Option<String>,
    pub proxyport: Option<u16>,
    pub method: Option<String>,
    pub body: Option<String>,
    pub headers: Option<String>,
}

/// The scheme of a resolved plan, a closed set: an unsupported scheme is a
/// hard error at resolution time.
#[derive(Clone, Copy, Debug, PartialEq, Eq, Structural)]
pub enum Scheme {
    Http,
    Https,
    Tcp,
}

impl Scheme {
    /// The textual name of the scheme.
    pub open spec fn text(self) -> Seq<char> {
        match self {
            Scheme::Http => "http"@,
            Scheme::Https => "https"@,
            Scheme::Tcp => "tcp"@,
        }
    }

    /// Returns the textual name of the scheme.
    pub fn as_str(&self) -> (r: &'static str)
        ensures
            r@ == self.text(),
    {
        match self {
            Scheme::Http => "http",
            Scheme::Https => "https",
            Scheme::Tcp => "tcp",
        }
    }
}

/// The scheme named by a string, or `None` for any unsupported one.
pub open spec fn scheme_of(s: Seq<char>) -> Option<Scheme> {
    if s == "http"@ {
        Some(Scheme::Http)
    } else if s == "https"@ {
        Some(Scheme::Https)
    } else if s == "tcp"@ {
        Some(Scheme::Tcp)
    } else {
        None
    }
}

fn scheme_from(s: &String) -> (r: Option<Scheme>)
    ensures
        r == scheme_of(s@),
{
    if *s == String::from_str("http") {
        Some(Scheme::Http)
    } else if *s == String::from_str("https") {
        Some(Scheme::Https)
    } else if *s == String::from_str("tcp") {
        Some(Scheme::Tcp)
    } else {
        None
    }
}

/// What the parameter resolver reads of a parsed URL: its scheme, host if
/// any, explicit port if any, and path.
pub struct UrlView {
    pub scheme: Seq<char>,
    pub host: Option<Seq<char>>,
    pub port: Option<u16>,
    pub path: Seq<char>,
}

/// The parts of a parsed URL, as plain values.
pub struct UrlParts {
    pub scheme: String,
    pub host: Option<String>,
    pub port: Option<u16>,
    pub path: String,
}

impl View for UrlParts {
    type V = UrlView;

    open spec fn view(&self) -> UrlView {
        UrlView {
            scheme: self.scheme@,
            host: match self.host {
                Some(h) => Some(h@),
                None => None,
            },
            port: self.port,
            path: self.path@,
        }
    }
}

/// What parsing a URL string yields: `None` when the string is not an
/// absolute URL, else its scheme, host, explicit port and path. URL parsing
/// is deterministic, a function of the string alone.
pub uninterp spec fn parsed_url(s: Seq<char>) -> Option<UrlView>;

/// Relies on `url::Url::parse` and the accessors `scheme`, `host_str`,
/// `port` and `path` of the parsed value: parsing either fails or yields the
/// URL's parts, and is deterministic, a function of the input string alone.
/// `port` is the explicitly written port: the crate leaves it out when it
/// equals the scheme's default.
#[verifier::external_body]
fn parse_url_raw(s: &str) -> (r: Option<UrlParts>)
    ensures
        r is Some <==> parsed_url(s@) is Some,
        r matches Some(p) ==> parsed_url(s@) == Some(p@),
{
    match url::Url::parse(s) {
        Ok(u) => Some(UrlParts {
            scheme: u.scheme().to_string(),
            host: match u.host_str() {
                Some(h) => Some(h.to_string()),
                None => None,
            },
            port: u.port(),
            path: u.path().to_string(),
        }),
        Err(_) => None,
    }
}

/// The port a scheme implies when the URL writes none: 443 for `https`, 80
/// otherwise.
pub open spec fn default_port(scheme: Seq<char>) -> u16 {
    if scheme == "https"@ {
        443
    } else {
        80
    }
}

fn default_port_of(s: &String) -> (r: u16)
    ensures
        r == default_port(s@),
{
    if *s == String::from_str("https") {
        443
    } else {
        80
    }
}

/// The port of the URL itself: the explicit one, or the scheme's default.
pub open spec fn effective_url_port(u: UrlView) -> u16 {
    match u.port {
        Some(p) => p,
        None => default_port(u.scheme),
    }
}

/// The port the socket connects to: the proxy port when one was supplied,
/// else the URL's port.
pub open spec fn resolved_port(u: UrlView, proxyport: Option<u16>) -> u16 {
    match proxyport {
        Some(p) => p,
        None => effective_url_port(u),
    }
}

/// The host the socket connects to: the proxy host when one was supplied,
/// else the URL's host, else `localhost`.
pub open spec fn resolved_host(u: UrlView, proxyhost: Option<Seq<char>>) -> Seq<char> {
    match proxyhost {
        Some(h) => h,
        None => match u.host {
            Some(h) => h,
            None => "localhost"@,
        },
    }
}

/// The path the request carries: with a proxy the full absolute URL, so the
/// proxy can route it; without one only the URL's path component.
pub open spec fn use_path_spec(u: UrlView, proxied: bool) -> Seq<char> {
    if proxied {
        u.scheme + "://"@ + (match u.host {
            Some(h) => h,
            None => "localhost"@,
        }) + ":"@ + dec_seq(effective_url_port(u) as nat) + u.path
    } else {
        u.path
    }
}

/// The view of an optional string.
pub open spec fn opt_text(o: Option<String>) -> Option<Seq<char>> {
    match o {
        Some(s) => Some(s@),
        None => None,
    }
}

/// A fully resolved connection plan: where the socket connects, the request
/// path, timeout, method, headers and body.
#[derive(Debug)]
pub struct Parameters {
    pub scheme: Scheme,
    pub connect_host: String,
    pub connect_port: u16,
    pub path: String,
    pub connection_timeout: u64,
    pub method: String,
    pub headers: Headers,
    pub body: Option<String>,
}

/// The connection timeout when none is given, in milliseconds.
pub const DEFAULT_CONNECTION_TIMEOUT: u64 = 1000;

impl Parameters {
    /// Resolves the raw argument values into a connection plan.
    ///
    /// Fails with `UnparseableUrl` when the URL cannot be parsed, and with
    /// `UnsupportedScheme` when its scheme is outside the supported set.
    /// Otherwise the proxy host and port, when supplied, replace the URL's
    /// own as the connect target, the request path follows
    /// [`use_path_spec`], and timeout and method fall back to their
    /// defaults.
    pub fn new(arguments: &Arguments) -> (r: Result<Parameters, ClientError>)
        requires
            headers_arg_wf(opt_text(arguments.headers)),
        ensures
            match parsed_url(arguments.url@) {
                None => r matches Err(e) && e.error_type == ClientErrorType::UnparseableUrl
                    && e.message@ == "Url could not be parsed"@,
                Some(u) => match scheme_of(u.scheme) {
                    None => r matches Err(e) && e.error_type == ClientErrorType::UnsupportedScheme
                        && e.message@ == "Unsupported scheme"@,
                    Some(sch) => r matches Ok(p) && p.scheme == sch && p.connect_host@
                        == resolved_host(u, opt_text(arguments.proxyhost)) && p.connect_port
                        == resolved_port(u, arguments.proxyport) && p.path@ == use_path_spec(
                        u,
                        arguments.proxyhost is Some,
                    ) && p.connection_timeout == (match arguments.connection_timeout {
                        Some(t) => t,
                        None => DEFAULT_CONNECTION_TIMEOUT,
                    }) && p.method@ == (match arguments.method {
                        Some(m) => m@,
                        None => "GET"@,
                    }) && p.headers@ == headers_spec(opt_text(arguments.headers)) && keys_unique(
                        p.headers@,
                    ) && opt_text(p.body) == opt_text(arguments.body),
                },
            },
    {
        let url_parts = match Self::get_url_parts(arguments.url.as_str()) {
            Err(e) => {
                return Err(e);
            },
            Ok(u) => u,
        };
        let scheme = match scheme_from(&url_parts.scheme) {
            None => {
                return Err(
                    ClientError::new(
                        ClientErrorType::UnsupportedScheme,
                        String::from_str("Unsupported scheme"),
                    ),
                );
            },
            Some(s) => s,
        };
        let connection_timeout = Self::get_connection_timeout(&arguments.connection_timeout);
        let connect_host = match &arguments.proxyhost {
            Some(h) => h.clone(),
            None => match &url_parts.host {
                Some(h) => h.clone(),
                None => String::from_str("localhost"),
            },
        };
        let connect_port = match arguments.proxyport {
            Some(p) => p,
            None => match url_parts.port {
                Some(p) => p,
                None => default_port_of(&url_parts.scheme),
            },
        };
        let headers = Self::get_headers(&arguments.headers);
        let proxyhost_again = match &arguments.proxyhost {
            Some(h) => Some(h.clone()),
            None => None,
        };
        let path = Self::get_use_path(&url_parts, proxyhost_again);
        let method = match &arguments.method {
            Some(m) => m.clone(),
            None => String::from_str("GET"),
        };
        let body = match &arguments.body {
            Some(b) => Some(b.clone()),
            None => None,
        };
        Ok(
            Parameters {
                scheme,
                connect_host,
                connect_port,
                path,
                connection_timeout,
                method,
                headers,
                body,
            },
        )
    }

    /// Parses the target URL into its parts, or fails with
    /// `UnparseableUrl`.
    pub fn get_url_parts(url: &str) -> (r: Result<UrlParts, ClientError>)
        ensures
            match parsed_url(url@) {
                Some(u) => r matches Ok(p) && p@ == u,
                None => r matches Err(e) && e.error_type == ClientErrorType::UnparseableUrl
                    && e.message@ == "Url could not be parsed"@,
            },
    {
        match parse_url_raw(url) {
            Some(p) => Ok(p),
            None => Err(
                ClientError::new(
                    ClientErrorType::UnparseableUrl,
                    String::from_str("Url could not be parsed"),
                ),
            ),
        }
    }

    /// The connection timeout in milliseconds: the given one, or 1000 when
    /// none was supplied.
    pub fn get_connection_timeout(connection_timeout: &Option<u64>) -> (r: u64)
        ensures
            r == (match *connection_timeout {
                Some(t) => t,
                None => DEFAULT_CONNECTION_TIMEOUT,
            }),
    {
        match connection_timeout {
            Some(t) => *t,
            None => DEFAULT_CONNECTION_TIMEOUT,
        }
    }

    /// Builds the header map from the comma-separated header string: each
    /// entry splits on its first colon, both sides trimmed of whitespace.
    pub fn get_headers(headers: &Option<String>) -> (r: Headers)
        requires
            headers_arg_wf(opt_text(*headers)),
        ensures
            r@ == headers_spec(opt_text(*headers)),
            keys_unique(r@),
    {
        match headers {
            None => Headers::new(),
            Some(h) => {
                let chars = str_to_chars(h.as_str());
                let pieces = split_by_char(&chars, ',');
                let ghost spec_pieces = split_char(h@, ',');
                let mut hm = Headers::new();
                let n = pieces.len();
                let mut i: usize = 0;
                proof {
                    assert(opt_text(*headers) == Some(h@));
                    assert(headers_arg_wf(Some(h@)));
                    assert forall|k: int|
                        0 <= k < spec_pieces.len() implies find_from(
                        #[trigger] spec_pieces[k],
                        ':',
                        0,
                    ) < spec_pieces[k].len() by {
                        assert(find_from(split_char(h@, ',')[k], ':', 0) < split_char(
                            h@,
                            ',',
                        )[k].len());
                    }
                }
                while i < n
                    invariant
                        i <= n,
                        n == pieces@.len(),
                        pieces.deep_view() == spec_pieces,
                        forall|k: int|
                            0 <= k < spec_pieces.len() ==> find_from(#[trigger] spec_pieces[k], ':', 0)
                                < spec_pieces[k].len(),
                        hm@ == headers_fold(spec_pieces, i as int),
                        keys_unique(hm@),
                    decreases n - i,
                {
                    let e = &pieces[i];
                    proof {
                        assert(pieces.deep_view()[i as int] =~= e@);
                    }
                    let j = scan_find(e, ':', 0);
                    assert(j < e@.len());
                    let key_part = subvec(e, 0, j);
                    let key = trim_chars(&key_part);
                    let val_part = subvec(e, j + 1, e.len());
                    let value = trim_chars(&val_part);
                    proof {
                        assert(key_part@ =~= e@.take(j as int));
                        assert(val_part@ =~= e@.skip(j + 1));
                    }
                    hm.insert(chars_to_string(&key), chars_to_string(&value));
                    i += 1;
                }
                proof {
                    lemma_split_char_len(h@, ',');
                }
                hm
            },
        }
    }

    /// The path the request will carry: with a proxy host the full absolute
    /// URL (scheme, host, port and path), else only the URL's path.
    pub fn get_use_path(url_parts: &UrlParts, proxyhost: Option<String>) -> (r: String)
        ensures
            r@ == use_path_spec(url_parts@, proxyhost is Some),
    {
        if proxyhost.is_some() {
            let mut path = String::new();
            path.append(url_parts.scheme.as_str());
            path.append("://");
            match &url_parts.host {
                Some(h) => path.append(h.as_str()),
                None => path.append("localhost"),
            }
            path.append(":");
            let port = match url_parts.port {
                Some(p) => p,
                None => default_port_of(&url_parts.scheme),
            };
            let port_chars = dec_chars_u16(port);
            let port_str = chars_to_string(&port_chars);
            path.append(port_str.as_str());
            path.append(url_parts.path.as_str());
            proof {
                assert(path@ =~= use_path_spec(url_parts@, true));
            }
            path
        } else {
            url_parts.path.clone()
        }
    }
}

/// What a header entry yields: the text before the first colon and the text
/// after it, both trimmed.
pub open spec fn header_entry(e: Seq<char>) -> (Seq<char>, Seq<char>) {
    let j = find_from(e, ':', 0);
    (trim_seq(e.take(j)), trim_seq(e.skip(j + 1)))
}

/// The header map built from the first `i` comma-separated entries, the
/// latest value of a repeated name winning.
pub open spec fn headers_fold(pieces: Seq<Seq<char>>, i: int) -> Seq<(Seq<char>, Seq<char>)>
    decreases i,
{
    if i <= 0 {
        Seq::<(Seq<char>, Seq<char>)>::empty()
    } else {
        let e = header_entry(pieces[i - 1]);
        insert_entry(headers_fold(pieces, i - 1), e.0, e.1)
    }
}

/// The header map named by an optional comma-separated header string.
pub open spec fn headers_spec(h: Option<Seq<char>>) -> Seq<(Seq<char>, Seq<char>)> {
    match h {
        None => Seq::<(Seq<char>, Seq<char>)>::empty(),
        Some(s) => headers_fold(split_char(s, ','), split_char(s, ',').len() as int),
    }
}

/// True when every comma-separated entry of the header string holds a
/// colon. An entry without one has no name/value split and no defined
/// meaning here, so resolution asks this of its caller, who fails on such
/// input before calling in.
pub open spec fn headers_arg_wf(h: Option<Seq<char>>) -> bool {
    match h {
        None => true,
        Some(s) => forall|k: int|
            0 <= k < split_char(s, ',').len() ==> find_from(#[trigger] split_char(s, ',')[k], ':', 0)
                < split_char(s, ',')[k].len(),
    }
}

/// Every resolved plan connects to a positive port: as long as neither the
/// proxy port nor the URL's explicit port is zero, the resolved port is
/// never zero, since the scheme defaults are 443 and 80.
pub proof fn lemma_connect_port_positive(u: UrlView, proxyport: Option<u16>)
    requires
        proxyport != Some(0u16),
        u.port != Some(0u16),
    ensures
        resolved_port(u, proxyport) > 0,
{
}

} // verus!
