//! The connection: what a request brought, and the response being prepared for it.

pub mod routing;

use vstd::prelude::*;

use crate::text::{copy_bytes, same_text};

verus! {

/// An HTTP request method.
#[derive(Debug)]
pub enum Method {
    Options,
    Get,
    Post,
    Put,
    Delete,
    Head,
    Trace,
    Connect,
    Patch,
    Extension(String),
}

impl View for Method {
    /// A method is known by its name.
    type V = Seq<char>;

    open spec fn view(&self) -> Seq<char> {
        match self {
            Method::Options => "OPTIONS"@,
            Method::Get => "GET"@,
            Method::Post => "POST"@,
            Method::Put => "PUT"@,
            Method::Delete => "DELETE"@,
            Method::Head => "HEAD"@,
            Method::Trace => "TRACE"@,
            Method::Connect => "CONNECT"@,
            Method::Patch => "PATCH"@,
            Method::Extension(name) => name@,
        }
    }
}

impl Method {
    /// The method's name.
    pub fn as_str(&self) -> (name: &str)
        ensures
            name@ == self@,
    {
        match self {
            Method::Options => "OPTIONS",
            Method::Get => "GET",
            Method::Post => "POST",
            Method::Put => "PUT",
            Method::Delete => "DELETE",
            Method::Head => "HEAD",
            Method::Trace => "TRACE",
            Method::Connect => "CONNECT",
            Method::Patch => "PATCH",
            Method::Extension(name) => name.as_str(),
        }
    }

    /// The method with the given name; the standard names give the standard methods.
    pub fn from_name(name: &str) -> (m: Method)
        ensures
            m@ == name@,
            m is Extension ==> {
                &&& name@ != "OPTIONS"@
                &&& name@ != "GET"@
                &&& name@ != "POST"@
                &&& name@ != "PUT"@
                &&& name@ != "DELETE"@
                &&& name@ != "HEAD"@
                &&& name@ != "TRACE"@
                &&& name@ != "CONNECT"@
                &&& name@ != "PATCH"@
            },
            name@ == "OPTIONS"@ ==> m is Options,
            name@ == "GET"@ ==> m is Get,
            name@ == "POST"@ ==> m is Post,
            name@ == "PUT"@ ==> m is Put,
            name@ == "DELETE"@ ==> m is Delete,
            name@ == "HEAD"@ ==> m is Head,
            name@ == "TRACE"@ ==> m is Trace,
            name@ == "CONNECT"@ ==> m is Connect,
            name@ == "PATCH"@ ==> m is Patch,
    {
        proof {
            reveal_strlit("OPTIONS");
            reveal_strlit("GET");
            reveal_strlit("POST");
            reveal_strlit("PUT");
            reveal_strlit("DELETE");
            reveal_strlit("HEAD");
            reveal_strlit("TRACE");
            reveal_strlit("CONNECT");
            reveal_strlit("PATCH");
            assert("OPTIONS"@.len() != "GET"@.len());
            assert("OPTIONS"@.len() != "POST"@.len());
            assert("OPTIONS"@.len() != "PUT"@.len());
            assert("OPTIONS"@.len() != "DELETE"@.len());
            assert("OPTIONS"@.len() != "HEAD"@.len());
            assert("OPTIONS"@.len() != "TRACE"@.len());
            assert("OPTIONS"@[0] != "CONNECT"@[0]);
            assert("OPTIONS"@.len() != "PATCH"@.len());
            assert("GET"@.len() != "POST"@.len());
            assert("GET"@[0] != "PUT"@[0]);
            assert("GET"@.len() != "DELETE"@.len());
            assert("GET"@.len() != "HEAD"@.len());
            assert("GET"@.len() != "TRACE"@.len());
            assert("GET"@.len() != "CONNECT"@.len());
            assert("GET"@.len() != "PATCH"@.len());
            assert("POST"@.len() != "PUT"@.len());
            assert("POST"@.len() != "DELETE"@.len());
            assert("POST"@[0] != "HEAD"@[0]);
            assert("POST"@.len() != "TRACE"@.len());
            assert("POST"@.len() != "CONNECT"@.len());
            assert("POST"@.len() != "PATCH"@.len());
            assert("PUT"@.len() != "DELETE"@.len());
            assert("PUT"@.len() != "HEAD"@.len());
            assert("PUT"@.len() != "TRACE"@.len());
            assert("PUT"@.len() != "CONNECT"@.len());
            assert("PUT"@.len() != "PATCH"@.len());
            assert("DELETE"@.len() != "HEAD"@.len());
            assert("DELETE"@.len() != "TRACE"@.len());
            assert("DELETE"@.len() != "CONNECT"@.len());
            assert("DELETE"@.len() != "PATCH"@.len());
            assert("HEAD"@.len() != "TRACE"@.len());
            assert("HEAD"@.len() != "CONNECT"@.len());
            assert("HEAD"@.len() != "PATCH"@.len());
            assert("TRACE"@.len() != "CONNECT"@.len());
            assert("TRACE"@[0] != "PATCH"@[0]);
            assert("CONNECT"@.len() != "PATCH"@.len());
        }
        if same_text(name, "OPTIONS") {
            Method::Options
        } else if same_text(name, "GET") {
            Method::Get
        } else if same_text(name, "POST") {
            Method::Post
        } else if same_text(name, "PUT") {
            Method::Put
        } else if same_text(name, "DELETE") {
            Method::Delete
        } else if same_text(name, "HEAD") {
            Method::Head
        } else if same_text(name, "TRACE") {
            Method::Trace
        } else if same_text(name, "CONNECT") {
            Method::Connect
        } else if same_text(name, "PATCH") {
            Method::Patch
        } else {
            Method::Extension(name.to_owned())
        }
    }
}

/// An HTTP status code, a number from 100 to 999.
#[derive(Debug, Clone, Copy)]
pub struct StatusCode {
    code: u16,
}

impl View for StatusCode {
    type V = u16;

    closed spec fn view(&self) -> u16 {
        self.code
    }
}

impl StatusCode {
    #[verifier::type_invariant]
    spec fn in_range(self) -> bool {
        100 <= self.code < 1000
    }

    /// The status with the given code; codes outside 100..=999 are not statuses.
    pub fn from_u16(code: u16) -> (s: Option<StatusCode>)
        ensures
            s is Some <==> 100 <= code < 1000,
            s matches Some(st) ==> st@ == code,
    {
        if 100 <= code && code < 1000 {
            Some(StatusCode { code })
        } else {
            None
        }
    }

    /// The numeric code.
    pub fn as_u16(&self) -> (code: u16)
        ensures
            code == self@,
            100 <= code < 1000,
    {
        proof {
            use_type_invariant(self);
        }
        self.code
    }
}

/// The address of the peer that sent a request.
#[derive(Debug, Clone, Copy)]
pub enum IpAddr {
    V4([u8; 4]),
    V6([u8; 16]),
}

/// What a request brings, taken apart: the absent parts of its URI are `None`.
pub struct RequestParts<H, B> {
    pub method: Method,
    pub scheme: Option<String>,
    pub host: Option<String>,
    pub path: String,
    pub query: Option<String>,
    pub headers: H,
    pub body: B,
}

/// A request together with the response being built for it.
///
/// `H` is the header map, `B` the request body and `S` the responder through which
/// the response is delivered once.
#[derive(Debug)]
pub struct Connection<H, B, S> {
    // request
    host: String,
    method: Method,
    path: String,
    port: u16,
    remote_ip: IpAddr,
    pub req_headers: H,
    scheme: String,
    query_string: String,
    req_body: B,
    // response
    status: Option<StatusCode>,
    resp_body: Option<Vec<u8>>,
    resp_cookies: Option<()>,
    pub resp_headers: H,
    // delivery
    responder: Option<S>,
}

/// The value of a connection.
pub struct ConnectionView<H, B, S> {
    pub host: Seq<char>,
    pub method: Seq<char>,
    pub path: Seq<char>,
    pub port: u16,
    pub remote_ip: IpAddr,
    pub req_headers: H,
    pub scheme: Seq<char>,
    pub query_string: Seq<char>,
    pub req_body: B,
    pub status: Option<u16>,
    pub resp_body: Option<Seq<u8>>,
    pub resp_headers: H,
    pub responder: Option<S>,
}

/// The status code's number, when there is a status.
pub open spec fn status_number(status: Option<StatusCode>) -> Option<u16> {
    match status {
        Some(s) => Some(s@),
        None => None,
    }
}

/// The bytes of an optional body.
pub open spec fn body_bytes(body: Option<Vec<u8>>) -> Option<Seq<u8>> {
    match body {
        Some(b) => Some(b@),
        None => None,
    }
}

impl<H, B, S> View for Connection<H, B, S> {
    type V = ConnectionView<H, B, S>;

    closed spec fn view(&self) -> ConnectionView<H, B, S> {
        ConnectionView {
            host: self.host@,
            method: self.method@,
            path: self.path@,
            port: self.port,
            remote_ip: self.remote_ip,
            req_headers: self.req_headers,
            scheme: self.scheme@,
            query_string: self.query_string@,
            req_body: self.req_body,
            status: status_number(self.status),
            resp_body: body_bytes(self.resp_body),
            resp_headers: self.resp_headers,
            responder: self.responder,
        }
    }
}

/// A response ready to be delivered.
pub struct Response<H> {
    pub status: StatusCode,
    pub headers: H,
    pub body: Vec<u8>,
}

/// A sent connection: the connection as it is afterwards, the response, and the
/// responder to deliver the response through.
pub struct Sent<H, B, S> {
    pub conn: Connection<H, B, S>,
    pub response: Response<H>,
    pub responder: S,
}

/// Why a response could not be sent.
#[derive(Debug, PartialEq, Eq, Structural)]
pub enum SendError {
    StatusNotSet,
    AlreadySent,
}

impl SendError {
    /// The error's message.
    pub fn message(&self) -> (m: &'static str)
        ensures
            self is StatusNotSet ==> m@ == "Status not set"@,
            self is AlreadySent ==> m@ == "Response has already been sent"@,
    {
        match self {
            SendError::StatusNotSet => "Status not set",
            SendError::AlreadySent => "Response has already been sent",
        }
    }
}

/// The text of an optional URI part, empty when the part is absent.
pub open spec fn or_empty(part: Option<String>) -> Seq<char> {
    match part {
        Some(s) => s@,
        None => Seq::empty(),
    }
}

fn unwrap_or_empty(part: Option<String>) -> (s: String)
    ensures
        s@ == or_empty(part),
{
    match part {
        Some(s) => s,
        None => String::new(),
    }
}

impl<H, B, S> Connection<H, B, S> {
    /// The connection for a request from `remote_ip`:`port`, with no status, no body and
    /// the header map `resp_headers` for the response, and no responder yet.
    pub fn from_parts(parts: RequestParts<H, B>, remote_ip: IpAddr, port: u16, resp_headers: H) -> (conn: Self)
        ensures
            conn@ == (ConnectionView::<H, B, S> {
                host: or_empty(parts.host),
                method: parts.method@,
                path: parts.path@,
                port,
                remote_ip,
                req_headers: parts.headers,
                scheme: or_empty(parts.scheme),
                query_string: or_empty(parts.query),
                req_body: parts.body,
                status: None,
                resp_body: None,
                resp_headers,
                responder: None,
            }),
    {
        let RequestParts { method, scheme, host, path, query, headers, body } = parts;
        Connection {
            method,
            req_headers: headers,
            scheme: unwrap_or_empty(scheme),
            host: unwrap_or_empty(host),
            path,
            query_string: unwrap_or_empty(query),
            remote_ip,
            port,
            req_body: body,
            responder: None,
            status: None,
            resp_body: None,
            resp_headers,
            resp_cookies: None,
        }
    }
}


/// The bytes a response carries for an optional body: none when there is no body.
pub open spec fn response_bytes(body: Option<Seq<u8>>) -> Seq<u8> {
    match body {
        Some(b) => b,
        None => Seq::empty(),
    }
}

/// What `send` does with a connection of value `c`: the error, or the connection's
/// value afterwards (its responder taken away).
pub open spec fn send_outcome<H, B, S>(c: ConnectionView<H, B, S>) -> Result<ConnectionView<H, B, S>, SendError> {
    if c.status is None {
        Err(SendError::StatusNotSet)
    } else if c.responder is None {
        Err(SendError::AlreadySent)
    } else {
        Ok(ConnectionView { responder: None, ..c })
    }
}

impl<H, B, S> Connection<H, B, S> {
    /// Gives the connection the responder through which its response is delivered.
    pub fn with_responder(self, responder: S) -> (conn: Self)
        ensures
            conn@ == (ConnectionView { responder: Some(responder), ..self@ }),
    {
        let mut conn = self;
        conn.responder = Some(responder);
        conn
    }

    /// Sets the response status.
    pub fn put_status(self, status_code: StatusCode) -> (conn: Self)
        ensures
            conn@ == (ConnectionView { status: Some(status_code@), ..self@ }),
    {
        let mut conn = self;
        conn.status = Some(status_code);
        conn
    }

    /// Leaves the connection as it is.
    pub fn put_header(self) -> (conn: Self)
        ensures
            conn@ == self@,
    {
        self
    }

    /// Sets the response body.
    pub fn put_body(self, body: Vec<u8>) -> (conn: Self)
        ensures
            conn@ == (ConnectionView { resp_body: Some(body@), ..self@ }),
    {
        let mut conn = self;
        conn.resp_body = Some(body);
        conn
    }

    /// Sends the response: its status, a copy of the response headers, and the body
    /// (empty when none was put). Fails when no status was put, and then when the
    /// connection has no responder (it was never given one, or has already sent).
    pub fn send(self) -> (res: Result<Sent<H, B, S>, SendError>)
        where
            H: Clone,
        ensures
            match send_outcome(self@) {
                Err(e) => res == Err::<Sent<H, B, S>, SendError>(e),
                Ok(after) => res matches Ok(sent) && {
                    &&& sent.conn@ == after
                    &&& Some(sent.response.status@) == self@.status
                    &&& sent.response.body@ == response_bytes(self@.resp_body)
                    &&& cloned(self@.resp_headers, sent.response.headers)
                    &&& Some(sent.responder) == self@.responder
                },
            },
    {
        let status = match self.status {
            Some(s) => s,
            None => return Err(SendError::StatusNotSet),
        };
        let headers = self.resp_headers.clone();
        let body = match &self.resp_body {
            Some(b) => copy_bytes(b),
            None => Vec::new(),
        };
        let mut conn = self;
        let responder = match conn.responder.take() {
            Some(r) => r,
            None => return Err(SendError::AlreadySent),
        };
        Ok(Sent { conn, response: Response { status, headers, body }, responder })
    }

    /// Puts the status and the body, then sends.
    pub fn send_resp(self, status_code: StatusCode, body: Vec<u8>) -> (res: Result<Sent<H, B, S>, SendError>)
        where
            H: Clone,
        ensures
            match send_outcome(ConnectionView { status: Some(status_code@), resp_body: Some(body@), ..self@ }) {
                Err(e) => res == Err::<Sent<H, B, S>, SendError>(e),
                Ok(after) => res matches Ok(sent) && {
                    &&& sent.conn@ == after
                    &&& sent.response.status@ == status_code@
                    &&& sent.response.body@ == body@
                    &&& cloned(self@.resp_headers, sent.response.headers)
                    &&& Some(sent.responder) == self@.responder
                },
            },
    {
        self.put_status(status_code).put_body(body).send()
    }
}


/// A response is sent at most once: after a successful send, sending again fails with
/// `AlreadySent`, whatever status and body are put in between.
pub proof fn law_response_sent_once<H, B, S>(
    before: ConnectionView<H, B, S>,
    after: ConnectionView<H, B, S>,
    status: u16,
    body: Option<Seq<u8>>,
)
    requires
        send_outcome(before) == Ok::<ConnectionView<H, B, S>, SendError>(after),
    ensures
        send_outcome(ConnectionView { status: Some(status), resp_body: body, ..after })
            == Err::<ConnectionView<H, B, S>, SendError>(SendError::AlreadySent),
{
}

/// Sending succeeds exactly when a status was put and a responder is attached, and it
/// changes nothing but taking the responder away.
pub proof fn law_send_succeeds_iff_ready<H, B, S>(c: ConnectionView<H, B, S>)
    ensures
        send_outcome(c) is Ok <==> (c.status is Some && c.responder is Some),
        send_outcome(c) matches Ok(after) ==> after == (ConnectionView { responder: None, ..c }),
{
}


/// Every standard method is known by its own name: `GET` is named "GET", `HEAD` is named
/// "HEAD", and so on; only an extension method carries a name of its choosing.
pub proof fn law_method_names(m: Method)
    ensures
        m is Options ==> m@ == "OPTIONS"@,
        m is Get ==> m@ == "GET"@,
        m is Post ==> m@ == "POST"@,
        m is Put ==> m@ == "PUT"@,
        m is Delete ==> m@ == "DELETE"@,
        m is Head ==> m@ == "HEAD"@,
        m is Trace ==> m@ == "TRACE"@,
        m is Connect ==> m@ == "CONNECT"@,
        m is Patch ==> m@ == "PATCH"@,
        m matches Method::Extension(name) ==> m@ == name@,
{
}

}
