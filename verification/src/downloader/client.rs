//! The download orchestrator.
use std::ops::Range;
use vstd::prelude::*;
use crate::downloader::error::{DownloadError, DownloadErrorView};
use crate::downloader::plan::{
    content_length, contribution, declared_total, headers_at, lemma_missing_length,
    lemma_single_response, lemma_stalled_range, lemma_start_only_empty, lemma_three_pieces,
    lemma_within_total, range_value, rejected_status_text, replay, settle, stalled_text, step,
    Part, Stage, LAST_ACCEPTED_STATUS,
};
use crate::downloader::response::{DownloadResponse, DownloadResponseView};
use crate::downloader::url::{
    authority_of, host_of, path_of, port_of, resolve, scheme, strip_scheme, DEFAULT_PORT, MAX_PORT,
};
use crate::http::client::{
    always_ready, answer_view, answers, header_views, receive, reply_view, request_text, HttpClient,
};
use crate::http::error::{HttpError, TransportError};
use crate::http::response::HttpResponse;
use crate::text::{
    find_char, parse_unsigned_range, push_decimal, starts_with, substring, to_chars,
};

verus! {

/// Handles downloading binary data from a server, supporting both full and partial downloads.
pub struct Downloader {
    client: HttpClient,
    url_path: String,
}

/// What a request handed to the download, as a plain value.
pub open spec fn part_view(part: Result<DownloadResponse, DownloadError>) -> Part {
    match part {
        Ok(response) => Ok(response@),
        Err(error) => Err(error@),
    }
}

/// The outcome of a download as a plain value.
pub open spec fn outcome_view(outcome: Result<Vec<u8>, DownloadError>) -> Result<
    Seq<u8>,
    DownloadErrorView,
> {
    match outcome {
        Ok(data) => Ok(data@),
        Err(error) => Err(error@),
    }
}

/// What each of `replies` handed to the download, in order.
pub open spec fn parts_of(replies: Seq<Result<Vec<u8>, TransportError>>) -> Seq<Part> {
    Seq::new(replies.len(), |i: int| contribution(receive(reply_view(replies[i]))))
}

impl Downloader {
    /// The host that the download talks to.
    pub closed spec fn host(&self) -> Seq<char> {
        self.client.host()
    }

    /// The port that the download talks to.
    pub closed spec fn port(&self) -> u16 {
        self.client.port()
    }

    /// The path of the resource on the server.
    pub closed spec fn path(&self) -> Seq<char> {
        self.url_path@
    }

    /// The text of the request that the download sends at `stage`.
    pub open spec fn request_at(&self, stage: Stage) -> Seq<char> {
        request_text("GET"@, self.path(), self.host(), self.port(), headers_at(stage))
    }

    /// Whether the reply at index `i` of `replies` answers the request that
    /// the stage reached before it calls for, the download not having ended.
    pub open spec fn served_at<F: Fn(&str, u16, &str) -> Result<Vec<u8>, TransportError>>(
        &self,
        transport: &F,
        replies: Seq<Result<Vec<u8>, TransportError>>,
        i: int,
    ) -> bool {
        let before = replay(parts_of(replies.take(i)));
        &&& !(before is Finished)
        &&& answers(transport, self.host(), self.port(), self.request_at(before), replies[i])
    }

    /// Whether `replies` can be what `transport` handed back, one after the
    /// other, to the requests of a download: each reply answers the request
    /// that the stage reached before it calls for, and no reply follows the
    /// end of the download.
    pub open spec fn served<F: Fn(&str, u16, &str) -> Result<Vec<u8>, TransportError>>(
        &self,
        transport: &F,
        replies: Seq<Result<Vec<u8>, TransportError>>,
    ) -> bool {
        forall|i: int| 0 <= i < replies.len() ==> #[trigger] self.served_at(transport, replies, i)
    }

    /// Whether `outcome` is how the download ends when `transport` hands back
    /// `replies` to its requests.
    pub open spec fn explains<F: Fn(&str, u16, &str) -> Result<Vec<u8>, TransportError>>(
        &self,
        transport: &F,
        replies: Seq<Result<Vec<u8>, TransportError>>,
        outcome: Result<Seq<u8>, DownloadErrorView>,
    ) -> bool {
        &&& self.served(transport, replies)
        &&& replay(parts_of(replies)) == Stage::Finished(outcome)
    }

    /// A reply to the request that the stage reached calls for extends what
    /// the transport served.
    pub proof fn lemma_served_push<F: Fn(&str, u16, &str) -> Result<Vec<u8>, TransportError>>(
        &self,
        transport: &F,
        replies: Seq<Result<Vec<u8>, TransportError>>,
        reply: Result<Vec<u8>, TransportError>,
    )
        requires
            self.served(transport, replies),
            !(replay(parts_of(replies)) is Finished),
            answers(
                transport,
                self.host(),
                self.port(),
                self.request_at(replay(parts_of(replies))),
                reply,
            ),
        ensures
            self.served(transport, replies.push(reply)),
            parts_of(replies.push(reply)) == parts_of(replies).push(
                contribution(receive(reply_view(reply))),
            ),
            replay(parts_of(replies.push(reply))) == step(
                replay(parts_of(replies)),
                contribution(receive(reply_view(reply))),
            ),
    {
        let longer = replies.push(reply);
        assert(parts_of(longer) =~= parts_of(replies).push(
            contribution(receive(reply_view(reply))),
        ));
        assert(parts_of(longer).drop_last() =~= parts_of(replies));
        assert forall|i: int| 0 <= i < longer.len() implies #[trigger] self.served_at(
            transport,
            longer,
            i,
        ) by {
            if i < replies.len() {
                assert(self.served_at(transport, replies, i));
                assert(longer.take(i) =~= replies.take(i));
                assert(longer[i] == replies[i]);
            } else {
                assert(longer.take(i) =~= replies);
            }
        }
    }

    /// The requests of a download stop with the response that ends it: what
    /// the transport served holds no reply after one at which the download
    /// has ended.
    pub proof fn lemma_no_reply_after_end<
        F: Fn(&str, u16, &str) -> Result<Vec<u8>, TransportError>,
    >(
        &self,
        transport: &F,
        replies: Seq<Result<Vec<u8>, TransportError>>,
        k: int,
    )
        requires
            self.served(transport, replies),
            0 <= k <= replies.len(),
            replay(parts_of(replies.take(k))) is Finished,
        ensures
            k == replies.len(),
    {
        if k < replies.len() {
            assert(self.served_at(transport, replies, k));
        }
    }

    /// A download whose first response declares a length and brings a body of
    /// that length makes exactly one request and ends with exactly that body.
    pub proof fn lemma_one_request_suffices<
        F: Fn(&str, u16, &str) -> Result<Vec<u8>, TransportError>,
    >(
        &self,
        transport: &F,
        replies: Seq<Result<Vec<u8>, TransportError>>,
        outcome: Result<Seq<u8>, DownloadErrorView>,
        body: Seq<u8>,
        total: usize,
    )
        requires
            self.explains(transport, replies, outcome),
            replies.len() > 0 ==> contribution(receive(reply_view(replies[0]))) == Ok::<
                DownloadResponseView,
                DownloadErrorView,
            >(DownloadResponseView { length: Some(total), data: body }),
            body.len() == total,
        ensures
            replies.len() == 1,
            outcome == Ok::<Seq<u8>, DownloadErrorView>(body),
    {
        if replies.len() == 0 {
            assert(parts_of(replies) =~= Seq::<Part>::empty());
        } else {
            let first = replies.take(1);
            assert(parts_of(first) =~= seq![contribution(receive(reply_view(replies[0])))]);
            lemma_single_response(body, total);
            self.lemma_no_reply_after_end(transport, replies, 1);
            assert(first =~= replies);
        }
    }

    /// A download that ends well ends with exactly as many bytes as its first
    /// response declared, whatever the responses brought.
    pub proof fn lemma_outcome_has_declared_length<
        F: Fn(&str, u16, &str) -> Result<Vec<u8>, TransportError>,
    >(
        &self,
        transport: &F,
        replies: Seq<Result<Vec<u8>, TransportError>>,
        data: Seq<u8>,
    )
        requires
            self.explains(transport, replies, Ok(data)),
        ensures
            replies.len() > 0,
            contribution(receive(reply_view(replies[0]))) matches Ok(first) && first.length
                matches Some(total) && data.len() == total,
    {
        lemma_within_total(parts_of(replies));
    }

    /// A download whose first response declares the total and whose first
    /// three responses bring the resource in three pieces, the later two not
    /// empty, makes exactly three requests and ends with the three bodies in
    /// order.
    pub proof fn lemma_three_requests<F: Fn(&str, u16, &str) -> Result<Vec<u8>, TransportError>>(
        &self,
        transport: &F,
        replies: Seq<Result<Vec<u8>, TransportError>>,
        outcome: Result<Seq<u8>, DownloadErrorView>,
        pieces: (Seq<u8>, Seq<u8>, Seq<u8>),
        total: usize,
    )
        requires
            self.explains(transport, replies, outcome),
            pieces.1.len() > 0,
            pieces.2.len() > 0,
            pieces.0.len() + pieces.1.len() + pieces.2.len() == total,
            replies.len() > 0 ==> contribution(receive(reply_view(replies[0]))) == Ok::<
                DownloadResponseView,
                DownloadErrorView,
            >(DownloadResponseView { length: Some(total), data: pieces.0 }),
            replies.len() > 1 ==> (contribution(receive(reply_view(replies[1]))) matches Ok(part)
                && part.data == pieces.1),
            replies.len() > 2 ==> (contribution(receive(reply_view(replies[2]))) matches Ok(part)
                && part.data == pieces.2),
        ensures
            replies.len() == 3,
            outcome == Ok::<Seq<u8>, DownloadErrorView>(pieces.0 + pieces.1 + pieces.2),
            (pieces.0 + pieces.1 + pieces.2).len() == total,
    {
        if replies.len() == 0 {
            assert(parts_of(replies) =~= Seq::<Part>::empty());
        } else {
            let second_length = if replies.len() > 1 {
                contribution(receive(reply_view(replies[1])))->Ok_0.length
            } else {
                None
            };
            let third_length = if replies.len() > 2 {
                contribution(receive(reply_view(replies[2])))->Ok_0.length
            } else {
                None
            };
            lemma_three_pieces(pieces.0, pieces.1, pieces.2, total, second_length, third_length);
            let one: Seq<Part> = seq![
                Ok(DownloadResponseView { length: Some(total), data: pieces.0 }),
            ];
            let two = one.push(Ok(DownloadResponseView { length: second_length, data: pieces.1 }));
            let three = two.push(Ok(DownloadResponseView { length: third_length, data: pieces.2 }));
            assert(parts_of(replies.take(1)) =~= one);
            if replies.len() == 1 {
                assert(replies.take(1) =~= replies);
            } else {
                assert(parts_of(replies.take(2)) =~= two);
                if replies.len() == 2 {
                    assert(replies.take(2) =~= replies);
                } else {
                    assert(parts_of(replies.take(3)) =~= three);
                    self.lemma_no_reply_after_end(transport, replies, 3);
                    assert(replies.take(3) =~= replies);
                }
            }
        }
    }

    /// A download whose first response declares no length makes exactly one
    /// request and ends with `MissingLength`.
    pub proof fn lemma_missing_length_stops<
        F: Fn(&str, u16, &str) -> Result<Vec<u8>, TransportError>,
    >(
        &self,
        transport: &F,
        replies: Seq<Result<Vec<u8>, TransportError>>,
        outcome: Result<Seq<u8>, DownloadErrorView>,
    )
        requires
            self.explains(transport, replies, outcome),
            replies.len() > 0 ==> (contribution(receive(reply_view(replies[0]))) matches Ok(part)
                && part.length is None),
        ensures
            replies.len() == 1,
            outcome == Err::<Seq<u8>, DownloadErrorView>(DownloadErrorView::MissingLength),
    {
        if replies.len() == 0 {
            assert(parts_of(replies) =~= Seq::<Part>::empty());
        } else {
            let first = replies.take(1);
            let part = contribution(receive(reply_view(replies[0])));
            assert(parts_of(first) =~= seq![part]);
            lemma_missing_length(part->Ok_0.data);
            self.lemma_no_reply_after_end(transport, replies, 1);
            assert(first =~= replies);
        }
    }

    /// A range response without a byte is the last response of its download,
    /// which ends as an invalid response: no request follows it.
    pub proof fn lemma_stalled_range_stops<
        F: Fn(&str, u16, &str) -> Result<Vec<u8>, TransportError>,
    >(
        &self,
        transport: &F,
        replies: Seq<Result<Vec<u8>, TransportError>>,
        outcome: Result<Seq<u8>, DownloadErrorView>,
        k: int,
    )
        requires
            self.explains(transport, replies, outcome),
            1 <= k < replies.len(),
            contribution(receive(reply_view(replies[k]))) matches Ok(part) && part.data.len() == 0,
        ensures
            replies.len() == k + 1,
            outcome == Err::<Seq<u8>, DownloadErrorView>(
                DownloadErrorView::InvalidResponse(stalled_text()),
            ),
    {
        let before = replies.take(k);
        let upto = replies.take(k + 1);
        let part = contribution(receive(reply_view(replies[k])));
        assert(self.served_at(transport, replies, k));
        assert(parts_of(upto) =~= parts_of(before).push(part));
        assert(parts_of(upto).drop_last() =~= parts_of(before));
        match replay(parts_of(before)) {
            Stage::Start => {
                lemma_start_only_empty(parts_of(before));
            },
            Stage::Filling { data, total } => {
                assert(part->Ok_0.data =~= Seq::<u8>::empty());
                lemma_stalled_range(parts_of(before), part->Ok_0.length);
            },
            Stage::Finished(ended) => {},
        }
        self.lemma_no_reply_after_end(transport, replies, k + 1);
        assert(upto =~= replies);
    }

    /// Creates a new Downloader instance from a server URL.
    /// URL format should be "http://host:port/path".
    /// Defaults to 127.0.0.1:80 and the path "/" where a part is left out.
    pub fn new(server_url: String) -> (downloader: Self)
        ensures
            (downloader.host(), downloader.port(), downloader.path()) == resolve(server_url@),
            downloader.path().len() > 0,
            downloader.path()[0] == '/',
    {
        let (host, port, path) = Self::parse_url(server_url);
        Self { client: HttpClient::new(host, port), url_path: path }
    }

    /// The host that the download talks to.
    pub fn host_name(&self) -> (host: &str)
        ensures
            host@ == self.host(),
    {
        self.client.host_name()
    }

    /// The port that the download talks to.
    pub fn port_number(&self) -> (port: u16)
        ensures
            port == self.port(),
    {
        self.client.port_number()
    }

    /// The path of the resource on the server.
    pub fn resource_path(&self) -> (path: &str)
        ensures
            path@ == self.path(),
    {
        self.url_path.as_str()
    }

    /// Parses a URL into (host, port, path) components.
    pub fn parse_url(url: String) -> (parts: (String, u16, String))
        ensures
            (parts.0@, parts.1, parts.2@) == resolve(url@),
            parts.2@.len() > 0,
            parts.2@[0] == '/',
    {
        let text = url.as_str();
        let chars = to_chars(text);
        let n: usize = chars.len();
        proof {
            reveal_strlit("http://");
            reveal_strlit("127.0.0.1");
            reveal_strlit("/");
        }
        let has_scheme = n >= 7 && chars[0] == 'h' && chars[1] == 't' && chars[2] == 't'
            && chars[3] == 'p' && chars[4] == ':' && chars[5] == '/' && chars[6] == '/';
        assert(has_scheme == starts_with(url@, scheme())) by {
            if has_scheme {
                assert(url@.take(7) =~= scheme());
            } else if n >= 7 {
                let head = url@.take(7);
                assert(head[0] == url@[0] && head[1] == url@[1] && head[2] == url@[2] && head[3]
                    == url@[3] && head[4] == url@[4] && head[5] == url@[5] && head[6] == url@[6]);
            }
        }
        let start: usize = if has_scheme {
            7
        } else {
            0
        };
        let ghost rest = strip_scheme(url@);
        assert(rest == chars@.subrange(start as int, n as int));
        let slash = find_char(&chars, start, n, '/');
        let ghost authority = authority_of(rest);
        assert(authority == chars@.subrange(start as int, slash as int));
        let colon = find_char(&chars, start, slash, ':');
        let host = if colon == start {
            "127.0.0.1".to_owned()
        } else {
            substring(text, start, colon)
        };
        assert(host@ == host_of(authority)) by {
            assert(authority.take(colon - start) == chars@.subrange(start as int, colon as int));
        }
        let port: u16 = if colon < slash {
            assert(authority.skip(colon - start + 1) == chars@.subrange(colon + 1, slash as int));
            match parse_unsigned_range(&chars, colon + 1, slash, MAX_PORT) {
                Some(number) => number as u16,
                None => DEFAULT_PORT,
            }
        } else {
            DEFAULT_PORT
        };
        assert(port == port_of(authority));
        let path = if slash < n {
            assert(chars@.subrange(slash as int, n as int) =~= seq!['/'] + rest.skip(
                slash - start + 1,
            ));
            substring(text, slash, n)
        } else {
            "/".to_owned()
        };
        assert(path@ =~= path_of(rest));
        (host, port, path)
    }

    /// Checks if the response status code indicates success.
    pub fn validate_response(&self, response: &HttpResponse) -> (verdict: Result<
        (),
        DownloadError,
    >)
        ensures
            match verdict {
                Ok(accepted) => response.status_code <= LAST_ACCEPTED_STATUS,
                Err(error) => response.status_code > LAST_ACCEPTED_STATUS && error@
                    == DownloadErrorView::InvalidResponse(
                    rejected_status_text(response.status_code),
                ),
            },
    {
        if response.status_code > LAST_ACCEPTED_STATUS {
            let mut reason = "Non-ok response status: ".to_owned();
            push_decimal(&mut reason, response.status_code as usize);
            return Err(DownloadError::InvalidResponse(reason));
        }
        Ok(())
    }

    /// Extracts content length from response headers if present.
    pub fn get_content_length(&self, response: &HttpResponse) -> (length: Option<usize>)
        ensures
            length == content_length(response@.headers),
    {
        match response.header("Content-Length") {
            Some(value) => {
                let chars = to_chars(value.as_str());
                assert(chars@.subrange(0, chars@.len() as int) == chars@);
                parse_unsigned_range(&chars, 0, chars.len(), usize::MAX)
            },
            None => None,
        }
    }

    /// Turns the outcome of a request into what it hands to the download.
    pub fn accept(&self, answer: Result<HttpResponse, HttpError>) -> (part: Result<
        DownloadResponse,
        DownloadError,
    >)
        ensures
            part_view(part) == contribution(answer_view(answer)),
    {
        let response = match answer {
            Ok(response) => response,
            Err(error) => { return Err(DownloadError::from(error)); },
        };
        match self.validate_response(&response) {
            Ok(()) => {},
            Err(error) => { return Err(error); },
        }
        let length = self.get_content_length(&response);
        Ok(DownloadResponse { length, data: response.body })
    }

    /// Makes a GET request for the entire resource.
    pub fn get<F: Fn(&str, u16, &str) -> Result<Vec<u8>, TransportError>>(
        &self,
        transport: &F,
    ) -> (part: Result<DownloadResponse, DownloadError>)
        requires
            always_ready(transport),
        ensures
            exists|reply: Result<Vec<u8>, TransportError>|
                #[trigger] answers(
                    transport,
                    self.host(),
                    self.port(),
                    self.request_at(Stage::Start),
                    reply,
                ) && part_view(part) == contribution(receive(reply_view(reply))),
    {
        let answer = self.client.send_request("GET", self.url_path.as_str(), None, transport);
        let ghost request = request_text(
            "GET"@,
            self.path(),
            self.host(),
            self.port(),
            header_views(None),
        );
        let ghost reply = choose|reply: Result<Vec<u8>, TransportError>|
            #[trigger] answers(transport, self.host(), self.port(), request, reply) && answer_view(
                answer,
            ) == receive(reply_view(reply));
        assert(header_views(None) == headers_at(Stage::Start));
        let part = self.accept(answer);
        assert(answers(transport, self.host(), self.port(), self.request_at(Stage::Start), reply));
        part
    }

    /// Makes a GET request for a specific byte range of the resource.
    pub fn get_range<F: Fn(&str, u16, &str) -> Result<Vec<u8>, TransportError>>(
        &self,
        range: Range<usize>,
        transport: &F,
    ) -> (part: Result<DownloadResponse, DownloadError>)
        requires
            always_ready(transport),
        ensures
            exists|reply: Result<Vec<u8>, TransportError>|
                #[trigger] answers(
                    transport,
                    self.host(),
                    self.port(),
                    request_text(
                        "GET"@,
                        self.path(),
                        self.host(),
                        self.port(),
                        seq![("Range"@, range_value(range.start as nat, range.end as nat))],
                    ),
                    reply,
                ) && part_view(part) == contribution(receive(reply_view(reply))),
    {
        let mut range_header = "bytes=".to_owned();
        push_decimal(&mut range_header, range.start);
        range_header.append("-");
        push_decimal(&mut range_header, range.end);
        let mut headers: Vec<(&str, &str)> = Vec::new();
        headers.push(("Range", range_header.as_str()));
        assert(header_views(Some(headers)) =~= seq![
            ("Range"@, range_value(range.start as nat, range.end as nat)),
        ]);
        let ghost request = request_text(
            "GET"@,
            self.path(),
            self.host(),
            self.port(),
            header_views(Some(headers)),
        );
        let answer = self.client.send_request(
            "GET",
            self.url_path.as_str(),
            Some(headers),
            transport,
        );
        let ghost reply = choose|reply: Result<Vec<u8>, TransportError>|
            #[trigger] answers(transport, self.host(), self.port(), request, reply) && answer_view(
                answer,
            ) == receive(reply_view(reply));
        let part = self.accept(answer);
        assert(answers(transport, self.host(), self.port(), request, reply));
        part
    }

    /// Downloads the complete file by making multiple requests if needed.
    /// Returns an error if the server doesn't provide content length, or if
    /// a range request brings no further byte. The bytes returned are exactly
    /// as many as the first response declared: what a response brings beyond
    /// that is left out.
    pub fn download_fully<F: Fn(&str, u16, &str) -> Result<Vec<u8>, TransportError>>(
        &self,
        transport: &F,
    ) -> (outcome: Result<Vec<u8>, DownloadError>)
        requires
            always_ready(transport),
        ensures
            exists|replies: Seq<Result<Vec<u8>, TransportError>>|
                #[trigger] self.explains(transport, replies, outcome_view(outcome)) && (outcome
                    matches Ok(data) ==> declared_total(parts_of(replies)) == Some(data.len())),
    {
        let first = self.get(transport);
        let ghost first_reply = choose|reply: Result<Vec<u8>, TransportError>|
            #[trigger] answers(
                transport,
                self.host(),
                self.port(),
                self.request_at(Stage::Start),
                reply,
            ) && part_view(first) == contribution(receive(reply_view(reply)));
        let ghost mut replies = Seq::<Result<Vec<u8>, TransportError>>::empty();
        proof {
            assert(parts_of(replies) =~= Seq::<Part>::empty());
            self.lemma_served_push(transport, replies, first_reply);
            replies = replies.push(first_reply);
        }
        let response = match first {
            Ok(response) => response,
            Err(error) => {
                assert(self.explains(transport, replies, Err(error@)));
                return Err(error);
            },
        };
        let total_length = match response.length {
            Some(length) => length,
            None => {
                assert(self.explains(transport, replies, Err(DownloadErrorView::MissingLength)));
                return Err(DownloadError::MissingLength);
            },
        };
        let mut data = response.data;
        while data.len() < total_length
            invariant
                always_ready(transport),
                self.served(transport, replies),
                replay(parts_of(replies)) == settle(data@, total_length),
            decreases
                if data@.len() < total_length {
                    total_length - data@.len()
                } else {
                    0
                },
        {
            let next = self.get_range(Range { start: data.len(), end: total_length }, transport);
            proof {
                let reply = choose|reply: Result<Vec<u8>, TransportError>|
                    #[trigger] answers(
                        transport,
                        self.host(),
                        self.port(),
                        request_text(
                            "GET"@,
                            self.path(),
                            self.host(),
                            self.port(),
                            seq![("Range"@, range_value(data.len() as nat, total_length as nat))],
                        ),
                        reply,
                    ) && part_view(next) == contribution(receive(reply_view(reply)));
                self.lemma_served_push(transport, replies, reply);
                replies = replies.push(reply);
            }
            let response = match next {
                Ok(response) => response,
                Err(error) => {
                    assert(self.explains(transport, replies, Err(error@)));
                    return Err(error);
                },
            };
            let mut piece = response.data;
            if piece.len() == 0 {
                let reason = "Range response carried no data".to_owned();
                let error = DownloadError::InvalidResponse(reason);
                assert(self.explains(transport, replies, Err(error@)));
                return Err(error);
            }
            let ghost earlier = data@;
            let ghost added = piece@;
            data.append(&mut piece);
            assert(data@ == earlier + added);
        }
        data.truncate(total_length);
        proof {
            assert(self.explains(transport, replies, Ok(data@)));
            lemma_within_total(parts_of(replies));
        }
        Ok(data)
    }
}

} // verus!
