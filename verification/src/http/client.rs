//! The wire client: one request and one response per call.
use vstd::prelude::*;
use crate::http::error::{
    transport_fault, HttpError, HttpErrorView, TransportError, TransportErrorView,
};
use crate::http::response::{HttpResponse, HttpResponseView};
use crate::http::wire::{
    decode_lossy, find_separator, has_separator, interpret, lemma_first_separator_unique, parse,
    read_headers,
    read_status, status_line, FIRST_FAILURE_STATUS,
};
use crate::text::{decimal_text, find_char, push_decimal, to_chars};

verus! {

/// How long a write to the server may take, in seconds.
pub const WRITE_TIMEOUT_SECS: u64 = 10;

/// How long a read from the server may take, in seconds.
pub const READ_TIMEOUT_SECS: u64 = 5;

/// How many bytes are asked of the connection at a time.
pub const READ_BUFFER_SIZE: usize = 4096;

/// Simple HTTP client for making requests to a specific host.
pub struct HttpClient {
    host: String,
    port: u16,
}

/// Caller-supplied headers as plain values; no list is an empty list.
pub open spec fn header_views(headers: Option<Vec<(&str, &str)>>) -> Seq<(Seq<char>, Seq<char>)> {
    match headers {
        Some(list) => Seq::new(list@.len(), |i: int| (list@[i].0@, list@[i].1@)),
        None => Seq::empty(),
    }
}

/// The lines that carry `headers`, in order: `Name: Value` and CR LF for each.
pub open spec fn header_lines(headers: Seq<(Seq<char>, Seq<char>)>) -> Seq<char>
    decreases headers.len(),
{
    if headers.len() == 0 {
        Seq::empty()
    } else {
        header_lines(headers.drop_last()) + headers.last().0 + ": "@ + headers.last().1 + "\r\n"@
    }
}

/// The text of a request: the request line, the `Host` header, `Connection:
/// close`, the caller's headers, and the blank line that ends it.
pub open spec fn request_text(
    method: Seq<char>,
    path: Seq<char>,
    host: Seq<char>,
    port: u16,
    headers: Seq<(Seq<char>, Seq<char>)>,
) -> Seq<char> {
    method + " "@ + path + " HTTP/1.1\r\nHost: "@ + host + ":"@ + decimal_text(port as nat)
        + "\r\nConnection: close\r\n"@ + header_lines(headers) + "\r\n"@
}

/// What the transport handed back, as a plain value.
pub open spec fn reply_view(reply: Result<Vec<u8>, TransportError>) -> Result<
    Seq<u8>,
    TransportErrorView,
> {
    match reply {
        Ok(raw) => Ok(raw@),
        Err(error) => Err(error@),
    }
}

/// The outcome of a request as a plain value.
pub open spec fn answer_view(answer: Result<HttpResponse, HttpError>) -> Result<
    HttpResponseView,
    HttpErrorView,
> {
    match answer {
        Ok(response) => Ok(response@),
        Err(error) => Err(error@),
    }
}

/// The outcome of a request whose exchange ended in `reply`: the parsed
/// response, or the error that stands for the transport's failure.
pub open spec fn receive(reply: Result<Seq<u8>, TransportErrorView>) -> Result<
    HttpResponseView,
    HttpErrorView,
> {
    match reply {
        Ok(raw) => parse(raw),
        Err(error) => Err(transport_fault(error)),
    }
}

/// Whether `transport` accepts every request.
pub open spec fn always_ready<F: Fn(&str, u16, &str) -> Result<Vec<u8>, TransportError>>(
    transport: &F,
) -> bool {
    forall|host: &str, port: u16, request: &str| call_requires(*transport, (host, port, request))
}

/// Whether `reply` is something that `transport` may hand back when it is
/// given `request` for the server at `host` and `port`.
pub open spec fn answers<F: Fn(&str, u16, &str) -> Result<Vec<u8>, TransportError>>(
    transport: &F,
    host: Seq<char>,
    port: u16,
    request: Seq<char>,
    reply: Result<Vec<u8>, TransportError>,
) -> bool {
    exists|to: &str, sent: &str|
        to@ == host && sent@ == request && #[trigger] call_ensures(
            *transport,
            (to, port, sent),
            reply,
        )
}

impl HttpClient {
    /// The host that this client talks to.
    pub closed spec fn host(&self) -> Seq<char> {
        self.host@
    }

    /// The port that this client talks to.
    pub closed spec fn port(&self) -> u16 {
        self.port
    }

    /// Create a new client instance for the given host and port.
    pub fn new(host: String, port: u16) -> (client: Self)
        ensures
            client.host() == host@,
            client.port() == port,
    {
        Self { host, port }
    }

    /// The host that this client talks to.
    pub fn host_name(&self) -> (host: &str)
        ensures
            host@ == self.host(),
    {
        self.host.as_str()
    }

    /// The port that this client talks to.
    pub fn port_number(&self) -> (port: u16)
        ensures
            port == self.port(),
    {
        self.port
    }

    /// Writes out the request for `path` with `method` and the given headers.
    pub fn build_request(
        &self,
        method: &str,
        path: &str,
        headers: &Option<Vec<(&str, &str)>>,
    ) -> (request: String)
        ensures
            request@ == request_text(
                method@,
                path@,
                self.host(),
                self.port(),
                header_views(*headers),
            ),
    {
        let mut request = method.to_owned();
        request.append(" ");
        request.append(path);
        request.append(" HTTP/1.1\r\nHost: ");
        request.append(self.host.as_str());
        request.append(":");
        push_decimal(&mut request, self.port as usize);
        request.append("\r\nConnection: close\r\n");
        let ghost fixed = request@;
        if let Some(list) = headers {
            let count: usize = list.len();
            let mut i: usize = 0;
            while i < count
                invariant
                    i <= count,
                    count == list@.len(),
                    *headers == Some(*list),
                    request@ == fixed + header_lines(header_views(*headers).take(i as int)),
                decreases count - i,
            {
                let (name, value) = list[i];
                proof {
                    let all = header_views(*headers);
                    assert(all.take(i + 1).drop_last() == all.take(i as int));
                    assert(all.take(i + 1).last() == (name@, value@));
                }
                request.append(name);
                request.append(": ");
                request.append(value);
                request.append("\r\n");
                i += 1;
                assert(request@ =~= fixed + header_lines(header_views(*headers).take(i as int)));
            }
            assert(header_views(*headers).take(count as int) == header_views(*headers));
        }
        request.append("\r\n");
        assert(request@ =~= request_text(
            method@,
            path@,
            self.host(),
            self.port(),
            header_views(*headers),
        ));
        request
    }

    /// Turns a decoded header block and a body into a response.
    pub fn interpret_head(head: &str, body: Vec<u8>) -> (answer: Result<HttpResponse, HttpError>)
        ensures
            answer_view(answer) == interpret(head@, body@),
    {
        let chars = to_chars(head);
        let first_end = find_char(&chars, 0, chars.len(), '\n');
        assert(chars@.subrange(0, chars@.len() as int) == chars@);
        assert(chars@.take(first_end as int) == status_line(head@));
        let status_code = match read_status(&chars, first_end) {
            Some(code) => code,
            None => { return Err(HttpError::InvalidResponse); },
        };
        if status_code >= FIRST_FAILURE_STATUS {
            return Err(HttpError::RequestFailed(status_code));
        }
        let headers = read_headers(head, &chars, first_end);
        Ok(HttpResponse { status_code, headers, body })
    }

    /// Parse raw HTTP response into structured data.
    pub fn parse_response(&self, response: Vec<u8>) -> (answer: Result<HttpResponse, HttpError>)
        ensures
            answer_view(answer) == parse(response@),
            !has_separator(response@) ==> answer matches Err(HttpError::InvalidResponse),
            answer matches Ok(r) ==> r.status_code < FIRST_FAILURE_STATUS,
    {
        let length: usize = response.len();
        let position = match find_separator(response.as_slice()) {
            Some(position) => position,
            None => { return Err(HttpError::InvalidResponse); },
        };
        proof {
            lemma_first_separator_unique(response@, position as int);
            assert(position + 4 <= length);
        }
        let mut head_bytes = response;
        let body = head_bytes.split_off(position + 4);
        assert(head_bytes@ == response@.take(position + 4));
        assert(body@ == response@.skip(position + 4));
        let head = decode_lossy(head_bytes.as_slice());
        Self::interpret_head(head.as_str(), body)
    }

    /// Send an HTTP request without body and return the response.
    ///
    /// `transport` carries the request text to the server at the given host
    /// and port and hands back every byte that the server sent before it
    /// closed the connection.
    pub fn send_request<F: Fn(&str, u16, &str) -> Result<Vec<u8>, TransportError>>(
        &self,
        method: &str,
        path: &str,
        headers: Option<Vec<(&str, &str)>>,
        transport: &F,
    ) -> (answer: Result<HttpResponse, HttpError>)
        requires
            always_ready(transport),
        ensures
            exists|reply: Result<Vec<u8>, TransportError>|
                #[trigger] answers(
                    transport,
                    self.host(),
                    self.port(),
                    request_text(method@, path@, self.host(), self.port(), header_views(headers)),
                    reply,
                ) && answer_view(answer) == receive(reply_view(reply)),
    {
        let request = self.build_request(method, path, &headers);
        let reply = transport(self.host.as_str(), self.port, request.as_str());
        let ghost kept = reply;
        let answer = match reply {
            Ok(raw) => self.parse_response(raw),
            Err(error) => Err(HttpError::from_transport(error)),
        };
        proof {
            assert(answers(
                transport,
                self.host(),
                self.port(),
                request_text(method@, path@, self.host(), self.port(), header_views(headers)),
                kept,
            ));
        }
        answer
    }
}

} // verus!
