//! The message framer and the HTTP client around it: a request model and
//! its serialization to wire text, and a response model parsed back from
//! the raw reply.
//!
//! The frame is deliberately bare rather than RFC-conformant: a lone `\n`
//! after the request line, no separator between header entries, no
//! `Content-Length`, and the body never on the wire. Hand-built, slightly
//! off frames are what a server under probe is meant to receive, so the
//! serializer pins this shape down instead of correcting it.
//!
//! Sending itself needs a socket, so the thin shell around the library
//! drives [`crate::connection::TcpConnection`] and hands the raw reply to
//! [`HttpResponse::new`].

use vstd::prelude::*;
use vstd::string::*;
use crate::common::ClientError;
use crate::common::ClientErrorType;
use crate::common::Parameters;
use crate::common::Scheme;
use crate::common::opt_text;
use crate::connection::TcpConnection;
use crate::headers::Headers;
use crate::headers::insert_entry;
use crate::headers::keys_unique;
use crate::scan::find_from;
use crate::scan::lines_of;
use crate::scan::next_non_ws;
use crate::scan::next_ws;
use crate::scan::scan_find;
use crate::scan::scan_non_ws;
use crate::scan::scan_ws;
use crate::scan::split_lines;
use crate::scan::subvec;
use crate::text::chars_to_string;
use crate::text::parse_u16;
use crate::text::parse_u16_chars;
use crate::text::str_to_chars;

verus! {

/// A request to serialize: path, method, headers in insertion order, and an
/// optional body that the frame never carries.
#[derive(Debug)]
pub struct HttpRequest {
    pub path: String,
    pub method: String,
    pub headers: Headers,
    pub body: Option<String>,
}

impl HttpRequest {
    /// Bundles the parts of a request.
    pub fn new(path: String, method: String, headers: Headers, body: Option<String>) -> (r:
        HttpRequest)
        ensures
            r.path == path,
            r.method == method,
            r.headers == headers,
            r.body == body,
    {
        HttpRequest { path, method, headers, body }
    }
}

/// The header entries of the frame, in insertion order, each as
/// `name: value` with no separator after it.
pub open spec fn header_lines(hs: Seq<(Seq<char>, Seq<char>)>) -> Seq<char>
    decreases hs.len(),
{
    if hs.len() == 0 {
        Seq::<char>::empty()
    } else {
        hs[0].0 + ": "@ + hs[0].1 + header_lines(hs.drop_first())
    }
}

/// The wire text of a request: the request line, the header entries, and
/// the closing blank line.
pub open spec fn request_text(
    method: Seq<char>,
    path: Seq<char>,
    hs: Seq<(Seq<char>, Seq<char>)>,
) -> Seq<char> {
    method + " "@ + path + " HTTP/1.1\n"@ + header_lines(hs) + "\n\n"@
}

proof fn lemma_header_lines_concat(a: Seq<(Seq<char>, Seq<char>)>, b: Seq<(Seq<char>, Seq<char>)>)
    ensures
        header_lines(a + b) == header_lines(a) + header_lines(b),
    decreases a.len(),
{
    if a.len() == 0 {
        assert(a + b =~= b);
        assert(header_lines(a) + header_lines(b) =~= header_lines(b));
    } else {
        assert((a + b).drop_first() =~= a.drop_first() + b);
        lemma_header_lines_concat(a.drop_first(), b);
        assert(header_lines(a + b) =~= header_lines(a) + header_lines(b));
    }
}

/// The HTTP client: it owns the transport state machine for its one
/// connection and builds the frame for a request. The thin shell around
/// the library performs the socket calls the machine allows.
#[derive(Debug)]
pub struct HttpClient {
    pub tcp_connection: TcpConnection,
}

impl HttpClient {
    /// A client whose connection targets a host and port with a connect
    /// timeout in milliseconds, starting disconnected.
    pub fn new(host: String, port: u16, connection_timeout: u64) -> (r: HttpClient)
        ensures
            r.tcp_connection.spec_host() == host@,
            r.tcp_connection.spec_port() == port,
            r.tcp_connection.spec_timeout() == connection_timeout,
            !r.tcp_connection.is_connected(),
    {
        let tcp_connection = TcpConnection::new(host, port, connection_timeout);
        HttpClient { tcp_connection }
    }

    /// Serializes a request into its wire text: the request line, each
    /// header as `name: value` in insertion order, and a closing blank
    /// line.
    pub fn get_request_string(&self, http_request: &HttpRequest) -> (r: String)
        ensures
            r@ == request_text(
                http_request.method@,
                http_request.path@,
                http_request.headers@,
            ),
    {
        let mut request_string = String::new();
        request_string.append(http_request.method.as_str());
        request_string.append(" ");
        request_string.append(http_request.path.as_str());
        request_string.append(" HTTP/1.1\n");
        let ghost hs = http_request.headers@;
        let ghost head = http_request.method@ + " "@ + http_request.path@ + " HTTP/1.1\n"@;
        proof {
            assert(request_string@ =~= head + header_lines(hs.take(0)));
        }
        let n = http_request.headers.len();
        let mut i: usize = 0;
        while i < n
            invariant
                i <= n,
                n == http_request.headers@.len(),
                hs == http_request.headers@,
                head == http_request.method@ + " "@ + http_request.path@ + " HTTP/1.1\n"@,
                request_string@ == head + header_lines(hs.take(i as int)),
            decreases n - i,
        {
            let entry = http_request.headers.entry_at(i);
            proof {
                assert(hs.take(i + 1) =~= hs.take(i as int) + seq![hs[i as int]]);
                lemma_header_lines_concat(hs.take(i as int), seq![hs[i as int]]);
                assert(header_lines(seq![hs[i as int]]) =~= hs[i as int].0 + ": "@
                    + hs[i as int].1) by {
                    reveal_with_fuel(header_lines, 2);
                    assert(seq![hs[i as int]].drop_first()
                        =~= Seq::<(Seq<char>, Seq<char>)>::empty());
                }
            }
            request_string.append(entry.0.as_str());
            request_string.append(": ");
            request_string.append(entry.1.as_str());
            proof {
                assert(request_string@ =~= head + header_lines(hs.take(i + 1)));
            }
            i += 1;
        }
        request_string.append("\n\n");
        proof {
            assert(hs.take(n as int) =~= hs);
            assert(request_string@ =~= request_text(
                http_request.method@,
                http_request.path@,
                hs,
            ));
        }
        request_string
    }
}

/// Builds the client for a resolved plan: `http` and `https` yield a client
/// for the plan's connect host, port and timeout; `tcp` is not served by
/// the HTTP client and fails with `UnsupportedScheme`.
pub fn get_http_client(parameters: &Parameters) -> (r: Result<HttpClient, ClientError>)
    ensures
        parameters.scheme != Scheme::Tcp ==> (r matches Ok(c) && c.tcp_connection.spec_host()
            == parameters.connect_host@ && c.tcp_connection.spec_port() == parameters.connect_port
            && c.tcp_connection.spec_timeout() == parameters.connection_timeout
            && !c.tcp_connection.is_connected()),
        parameters.scheme == Scheme::Tcp ==> (r matches Err(e) && e.error_type
            == ClientErrorType::UnsupportedScheme && e.message@ == "Unsupported scheme"@),
{
    match parameters.scheme {
        Scheme::Http => Ok(
            HttpClient::new(
                parameters.connect_host.clone(),
                parameters.connect_port,
                parameters.connection_timeout,
            ),
        ),
        Scheme::Https => Ok(
            HttpClient::new(
                parameters.connect_host.clone(),
                parameters.connect_port,
                parameters.connection_timeout,
            ),
        ),
        Scheme::Tcp => Err(
            ClientError::new(
                ClientErrorType::UnsupportedScheme,
                String::from_str("Unsupported scheme"),
            ),
        ),
    }
}

/// The status code of a status line: its second whitespace-delimited token
/// read as a decimal number, or 500 when the token is missing or not a
/// 16-bit number. A malformed status line is a server error, never a parse
/// failure.
pub open spec fn status_of_line(line: Seq<char>) -> u16 {
    let a = next_non_ws(line, 0);
    let b = next_ws(line, a);
    let c = next_non_ws(line, b);
    let d = next_ws(line, c);
    if c >= line.len() {
        500
    } else {
        match parse_u16(line.subrange(c, d)) {
            Some(v) => v,
            None => 500,
        }
    }
}

/// The headers and body that the lines after the status line yield, walked
/// from line `i` with `bs` telling whether a blank line was already seen:
/// a blank line starts the body; before it, each line with a colon becomes
/// a header entry and one without is ignored; after it, non-blank lines
/// concatenate into the body with no separator.
pub open spec fn parse_tail(
    lines: Seq<Seq<char>>,
    i: int,
    bs: bool,
    hs: Seq<(Seq<char>, Seq<char>)>,
    body: Option<Seq<char>>,
) -> (Seq<(Seq<char>, Seq<char>)>, Option<Seq<char>>)
    decreases lines.len() - i,
{
    if i < 0 || i >= lines.len() {
        (hs, body)
    } else {
        let line = lines[i];
        if line.len() == 0 {
            parse_tail(lines, i + 1, true, hs, body)
        } else if bs {
            parse_tail(
                lines,
                i + 1,
                bs,
                hs,
                Some(
                    match body {
                        None => line,
                        Some(b) => b + line,
                    },
                ),
            )
        } else {
            let j = find_from(line, ':', 0);
            if j < line.len() {
                parse_tail(lines, i + 1, bs, insert_entry(hs, line.take(j), line.skip(j + 1)), body)
            } else {
                parse_tail(lines, i + 1, bs, hs, body)
            }
        }
    }
}

/// The status code a raw reply parses to.
pub open spec fn response_code_of(s: Seq<char>) -> u16 {
    let lines = split_lines(s);
    if lines.len() == 0 {
        500
    } else {
        status_of_line(lines[0])
    }
}

/// The headers and body a raw reply parses to: the lines before the first
/// blank line are headers, the non-blank lines after it concatenate into
/// the body.
pub open spec fn response_rest_of(s: Seq<char>) -> (
    Seq<(Seq<char>, Seq<char>)>,
    Option<Seq<char>>,
) {
    let lines = split_lines(s);
    let bs0 = lines.len() > 0 && lines[0].len() == 0;
    parse_tail(lines, 1, bs0, Seq::<(Seq<char>, Seq<char>)>::empty(), None)
}

/// A response parsed from a raw reply: status code, headers, and the body
/// lines joined without a separator.
#[derive(Debug)]
pub struct HttpResponse {
    pub response_code: u16,
    pub headers: Headers,
    pub body: Option<String>,
}

impl HttpResponse {
    /// Parses a raw reply. An empty reply fails with `NoResponse`; any
    /// other reply parses to a response, malformed pieces falling back as
    /// [`status_of_line`] and [`parse_tail`] describe.
    pub fn new(response: &String) -> (r: Result<HttpResponse, ClientError>)
        ensures
            response@.len() == 0 ==> (r matches Err(e) && e.error_type
                == ClientErrorType::NoResponse && e.message@ == "No response"@),
            response@.len() > 0 ==> (r matches Ok(p) && p.response_code == response_code_of(
                response@,
            ) && p.headers@ == response_rest_of(response@).0 && opt_text(p.body)
                == response_rest_of(response@).1 && keys_unique(p.headers@)),
    {
        if response.as_str().unicode_len() == 0 {
            return Err(
                ClientError::new(ClientErrorType::NoResponse, String::from_str("No response")),
            );
        }
        let chars = str_to_chars(response.as_str());
        let lines = lines_of(&chars);
        let ghost spec_lines = split_lines(response@);
        let response_code: u16 = if lines.len() > 0 {
            proof {
                assert(lines.deep_view()[0] =~= lines@[0]@);
            }
            let first = chars_to_string(&lines[0]);
            Self::get_response_code(first.as_str())
        } else {
            500
        };
        let mut headers = Headers::new();
        let mut body: Option<String> = None;
        let mut body_start: bool = lines.len() > 0 && lines[0].len() == 0;
        proof {
            if lines@.len() > 0 {
                assert(lines.deep_view()[0] =~= lines@[0]@);
            }
        }
        let n = lines.len();
        let mut i: usize = 1;
        while i < n
            invariant
                1 <= i <= n || (n == 0 && i == 1),
                n == lines@.len(),
                lines.deep_view() == spec_lines,
                keys_unique(headers@),
                response_rest_of(response@) == parse_tail(
                    spec_lines,
                    i as int,
                    body_start,
                    headers@,
                    opt_text(body),
                ),
            decreases n - i,
        {
            let line = &lines[i];
            proof {
                assert(lines.deep_view()[i as int] =~= line@);
            }
            if line.len() == 0 {
                body_start = true;
            } else if body_start {
                let piece = chars_to_string(line);
                body = Self::append_body(body, piece);
            } else {
                let j = scan_find(line, ':', 0);
                if j < line.len() {
                    let name = chars_to_string(&subvec(line, 0, j));
                    let value = chars_to_string(&subvec(line, j + 1, line.len()));
                    proof {
                        assert(name@ =~= line@.take(j as int));
                        assert(value@ =~= line@.skip(j + 1));
                    }
                    headers.insert(name, value);
                }
            }
            i += 1;
        }
        Ok(HttpResponse { response_code, headers, body })
    }

    /// Reads the status code from the status line: the second
    /// whitespace-delimited token as a decimal number, defaulting to 500.
    pub fn get_response_code(line: &str) -> (r: u16)
        ensures
            r == status_of_line(line@),
    {
        let chars = str_to_chars(line);
        let a = scan_non_ws(&chars, 0);
        let b = scan_ws(&chars, a);
        let c = scan_non_ws(&chars, b);
        let d = scan_ws(&chars, c);
        if c >= chars.len() {
            500
        } else {
            let token = subvec(&chars, c, d);
            match parse_u16_chars(&token) {
                Some(v) => v,
                None => 500,
            }
        }
    }

    /// Splits a header line on its first colon: the name is the text before
    /// it, the value everything after it, neither trimmed.
    pub fn get_header(line: &str) -> (r: (String, String))
        requires
            find_from(line@, ':', 0) < line@.len(),
        ensures
            r.0@ == line@.take(find_from(line@, ':', 0)),
            r.1@ == line@.skip(find_from(line@, ':', 0) + 1),
    {
        let chars = str_to_chars(line);
        let len = chars.len();
        let j = scan_find(&chars, ':', 0);
        assert(j < len);
        let name = chars_to_string(&subvec(&chars, 0, j));
        let value = chars_to_string(&subvec(&chars, j + 1, len));
        proof {
            assert(name@ =~= line@.take(find_from(line@, ':', 0)));
            assert(value@ =~= line@.skip(find_from(line@, ':', 0) + 1));
        }
        (name, value)
    }

    /// Appends a line to the body under construction, with no separator:
    /// the first line starts the body.
    pub fn append_body(body: Option<String>, line: String) -> (r: Option<String>)
        ensures
            opt_text(r) == Some(
                match opt_text(body) {
                    None => line@,
                    Some(b) => b + line@,
                },
            ),
    {
        match body {
            Some(b) => {
                let joined = b.concat(line.as_str());
                Some(joined)
            },
            None => Some(line),
        }
    }
}

} // verus!
