//! The course of a download: which request follows which response, and when
//! the assembled bytes are complete.
use vstd::prelude::*;
use crate::downloader::error::DownloadErrorView;
use crate::downloader::response::DownloadResponseView;
use crate::http::error::HttpErrorView;
use crate::http::response::HttpResponseView;
use crate::http::wire::{interpret, status_code, FIRST_FAILURE_STATUS};
use crate::text::{decimal_text, parse_unsigned};

verus! {

/// The last status code that the download accepts.
pub const LAST_ACCEPTED_STATUS: u16 = 299;

/// What one request hands to the download: a contribution or a failure.
pub type Part = Result<DownloadResponseView, DownloadErrorView>;

/// How far a download has come.
pub enum Stage {
    /// Nothing has been requested yet.
    Start,
    /// `data` has been assembled and is shorter than the declared `total`.
    Filling { data: Seq<u8>, total: usize },
    /// The download has ended, with the assembled bytes or with a failure.
    Finished(Result<Seq<u8>, DownloadErrorView>),
}

/// The reason given for a response whose status code is above 299.
pub open spec fn rejected_status_text(code: u16) -> Seq<char> {
    "Non-ok response status: "@ + decimal_text(code as nat)
}

/// The reason given for a range response that brings no further byte.
pub open spec fn stalled_text() -> Seq<char> {
    "Range response carried no data"@
}

/// The value of the `Range` header that asks for the bytes from `start` on,
/// with the declared total length as its end.
pub open spec fn range_value(start: nat, end: nat) -> Seq<char> {
    "bytes="@ + decimal_text(start) + "-"@ + decimal_text(end)
}

/// The length that the `Content-Length` header of a response declares, if the
/// header is there and its value is the decimal form of a `usize`.
pub open spec fn content_length(headers: Map<Seq<char>, Seq<char>>) -> Option<usize> {
    if headers.contains_key("Content-Length"@) {
        match parse_unsigned(headers["Content-Length"@], usize::MAX as nat) {
            Some(length) => Some(length as usize),
            None => None,
        }
    } else {
        None
    }
}

/// What the outcome of one request hands to the download. A failed request
/// fails the download with that failure; a response with a status code above
/// 299 fails it as an invalid response; any other response contributes its
/// body, together with the length that it declares.
pub open spec fn contribution(answer: Result<HttpResponseView, HttpErrorView>) -> Part {
    match answer {
        Err(error) => Err(DownloadErrorView::Http(error)),
        Ok(response) => if response.status_code > LAST_ACCEPTED_STATUS {
            Err(DownloadErrorView::InvalidResponse(rejected_status_text(response.status_code)))
        } else {
            Ok(
                DownloadResponseView {
                    length: content_length(response.headers),
                    data: response.body,
                },
            )
        },
    }
}

/// The stage at which `data` stands against the declared `total`. While it is
/// shorter the download goes on. As soon as it is no shorter the download has
/// ended, with the first `total` bytes of it: what a response brings beyond
/// the declared total is left out.
pub open spec fn settle(data: Seq<u8>, total: usize) -> Stage {
    if data.len() < total {
        Stage::Filling { data, total }
    } else {
        Stage::Finished(Ok(data.take(total as int)))
    }
}

/// The stage after the first request. Its response must declare a length,
/// which becomes the total for the whole download, and its body seeds the
/// assembled bytes, as far as that total leaves room.
pub open spec fn begin(first: Part) -> Stage {
    match first {
        Err(error) => Stage::Finished(Err(error)),
        Ok(part) => match part.length {
            None => Stage::Finished(Err(DownloadErrorView::MissingLength)),
            Some(total) => settle(part.data, total),
        },
    }
}

/// The stage after a range request made with `data` assembled. Its body is
/// appended, as far as the declared total leaves room; a body without a byte
/// fails the download.
pub open spec fn extend(data: Seq<u8>, total: usize, next: Part) -> Stage {
    match next {
        Err(error) => Stage::Finished(Err(error)),
        Ok(part) => if part.data.len() == 0 {
            Stage::Finished(Err(DownloadErrorView::InvalidResponse(stalled_text())))
        } else {
            settle(data + part.data, total)
        },
    }
}

/// The stage that follows `stage` when a request yields `part`. A download
/// that has ended stays as it is.
pub open spec fn step(stage: Stage, part: Part) -> Stage {
    match stage {
        Stage::Start => begin(part),
        Stage::Filling { data, total } => extend(data, total, part),
        Stage::Finished(outcome) => Stage::Finished(outcome),
    }
}

/// The stage reached after the requests of a download yielded `parts`, in order.
pub open spec fn replay(parts: Seq<Part>) -> Stage
    decreases parts.len(),
{
    if parts.len() == 0 {
        Stage::Start
    } else {
        step(replay(parts.drop_last()), parts.last())
    }
}

/// The headers of the request that the download makes at `stage`: none at the
/// start, and a `Range` from the assembled length to the declared total while
/// filling.
pub open spec fn headers_at(stage: Stage) -> Seq<(Seq<char>, Seq<char>)> {
    match stage {
        Stage::Filling { data, total } => seq![("Range"@, range_value(data.len(), total as nat))],
        _ => Seq::empty(),
    }
}

/// The bytes assembled at `stage`.
pub open spec fn assembled(stage: Stage) -> Seq<u8> {
    match stage {
        Stage::Filling { data, total } => data,
        Stage::Finished(Ok(data)) => data,
        _ => Seq::empty(),
    }
}

/// The total that a download goes by: the length that its first response
/// declared.
pub open spec fn declared_total(parts: Seq<Part>) -> Option<usize> {
    if parts.len() > 0 {
        match parts[0] {
            Ok(part) => part.length,
            Err(error) => None,
        }
    } else {
        None
    }
}

/// Whether `shorter` is a prefix of `longer`.
pub open spec fn is_prefix(shorter: Seq<u8>, longer: Seq<u8>) -> bool {
    shorter.len() <= longer.len() && longer.take(shorter.len() as int) == shorter
}

/// A server that returns the whole resource in one response, its body as long
/// as the length it declares, is asked once: the download ends with exactly
/// that body after the first request.
pub proof fn lemma_single_response(body: Seq<u8>, total: usize)
    requires
        body.len() == total,
    ensures
        replay(seq![Ok(DownloadResponseView { length: Some(total), data: body })])
            == Stage::Finished(Ok(body)),
{
    let parts: Seq<Part> = seq![Ok(DownloadResponseView { length: Some(total), data: body })];
    assert(parts.drop_last() =~= Seq::<Part>::empty());
    assert(replay(parts.drop_last()) == Stage::Start);
    assert(body.take(total as int) =~= body);
}

/// A server that declares the total length in its first response and returns
/// the resource in three pieces, the later two not empty, is asked three
/// times: first without a range, then from the end of the first piece, then
/// from the end of the second. The download ends with the three bodies in
/// order, as long as the total declared. The lengths that the later responses
/// declare play no part.
pub proof fn lemma_three_pieces(
    first: Seq<u8>,
    second: Seq<u8>,
    third: Seq<u8>,
    total: usize,
    second_length: Option<usize>,
    third_length: Option<usize>,
)
    requires
        second.len() > 0,
        third.len() > 0,
        first.len() + second.len() + third.len() == total,
    ensures
        ({
            let one: Seq<Part> = seq![
                Ok(DownloadResponseView { length: Some(total), data: first }),
            ];
            let two = one.push(Ok(DownloadResponseView { length: second_length, data: second }));
            let three = two.push(Ok(DownloadResponseView { length: third_length, data: third }));
            &&& replay(one) == Stage::Filling { data: first, total }
            &&& headers_at(replay(one)) == seq![("Range"@, range_value(first.len(), total as nat))]
            &&& replay(two) == Stage::Filling { data: first + second, total }
            &&& headers_at(replay(two)) == seq![
                ("Range"@, range_value(first.len() + second.len(), total as nat)),
            ]
            &&& replay(three) == Stage::Finished(Ok(first + second + third))
            &&& (first + second + third).len() == total
        }),
{
    let one: Seq<Part> = seq![Ok(DownloadResponseView { length: Some(total), data: first })];
    let two = one.push(Ok(DownloadResponseView { length: second_length, data: second }));
    let three = two.push(Ok(DownloadResponseView { length: third_length, data: third }));
    assert(one.drop_last() =~= Seq::<Part>::empty());
    assert(replay(one.drop_last()) == Stage::Start);
    assert(replay(one) == Stage::Filling { data: first, total });
    assert(two.drop_last() =~= one);
    assert(replay(two) == Stage::Filling { data: first + second, total });
    assert(three.drop_last() =~= two);
    assert((first + second + third).take(total as int) =~= first + second + third);
}

/// A first response that declares no length ends the download at once with
/// `MissingLength`, whatever its body, after the one request.
pub proof fn lemma_missing_length(body: Seq<u8>)
    ensures
        replay(seq![Ok(DownloadResponseView { length: None, data: body })]) == Stage::Finished(
            Err(DownloadErrorView::MissingLength),
        ),
{
    let parts: Seq<Part> = seq![Ok(DownloadResponseView { length: None, data: body })];
    assert(parts.drop_last() =~= Seq::<Part>::empty());
    assert(replay(parts.drop_last()) == Stage::Start);
}

/// A range response without a byte ends a download that is still filling at
/// once, as an invalid response: no further request follows it.
pub proof fn lemma_stalled_range(parts: Seq<Part>, length: Option<usize>)
    requires
        replay(parts) is Filling,
    ensures
        replay(parts.push(Ok(DownloadResponseView { length, data: Seq::empty() })))
            == Stage::Finished(Err(DownloadErrorView::InvalidResponse(stalled_text()))),
{
    let longer = parts.push(Ok(DownloadResponseView { length, data: Seq::empty() }));
    assert(longer.drop_last() =~= parts);
}

/// A further response never takes away what is assembled: the bytes assembled
/// before it are a prefix of the bytes assembled after it, unless it fails the
/// download.
pub proof fn lemma_assembled_grows(parts: Seq<Part>, next: Part)
    requires
        replay(parts) is Filling,
        !(replay(parts.push(next)) matches Stage::Finished(Err(_))),
    ensures
        is_prefix(assembled(replay(parts)), assembled(replay(parts.push(next)))),
{
    assert(parts.push(next).drop_last() =~= parts);
    let data = replay(parts)->Filling_data;
    let total = replay(parts)->Filling_total;
    let part = next->Ok_0;
    lemma_within_total(parts);
    assert((data + part.data).take(data.len() as int) =~= data);
    if (data + part.data).len() >= total {
        assert((data + part.data).take(total as int).take(data.len() as int) =~= data);
    }
}

/// Only a download without any response is at its start.
pub proof fn lemma_start_only_empty(parts: Seq<Part>)
    requires
        replay(parts) is Start,
    ensures
        parts.len() == 0,
{
    if parts.len() > 0 {
        let earlier = parts.drop_last();
        match replay(earlier) {
            Stage::Start => {},
            Stage::Filling { data, total } => {},
            Stage::Finished(outcome) => {},
        }
    }
}

/// The assembled bytes never exceed the declared total: they are fewer while
/// the download is filling, and exactly as many when it has ended well. The
/// total is the length that the first response declared.
pub proof fn lemma_within_total(parts: Seq<Part>)
    ensures
        match replay(parts) {
            Stage::Filling { data, total } => data.len() < total && declared_total(parts) == Some(
                total,
            ),
            Stage::Finished(Ok(data)) => declared_total(parts) matches Some(total) && data.len()
                == total,
            _ => true,
        },
    decreases parts.len(),
{
    if parts.len() > 0 {
        let earlier = parts.drop_last();
        lemma_within_total(earlier);
        match replay(earlier) {
            Stage::Start => {
                lemma_start_only_empty(earlier);
            },
            Stage::Filling { data, total } => {
                assert(earlier[0] == parts[0]);
            },
            Stage::Finished(outcome) => {
                if outcome is Ok {
                    assert(earlier[0] == parts[0]);
                }
            },
        }
    }
}

/// A download ends well exactly when the assembled bytes reach the declared
/// total: a response that leaves them shorter keeps the download filling, and
/// one that brings at least what was missing ends it with exactly the total.
pub proof fn lemma_complete_when_total_reached(parts: Seq<Part>, next: DownloadResponseView)
    requires
        replay(parts) is Filling,
        next.data.len() > 0,
    ensures
        ({
            let data = replay(parts)->Filling_data;
            let total = replay(parts)->Filling_total;
            let after = replay(parts.push(Ok(next)));
            if data.len() + next.data.len() < total {
                after == Stage::Filling { data: data + next.data, total }
            } else {
                &&& after == Stage::Finished(Ok((data + next.data).take(total as int)))
                &&& assembled(after).len() == total
            }
        }),
{
    assert(parts.push(Ok(next)).drop_last() =~= parts);
}

/// A response with a status code of 400 or more never counts as a success:
/// the client reads it as `RequestFailed` with that code, and the download
/// that asked for it ends with that failure.
pub proof fn lemma_failure_status_ends_download(
    parts: Seq<Part>,
    head: Seq<char>,
    body: Seq<u8>,
    code: u16,
)
    requires
        !(replay(parts) is Finished),
        status_code(head) == Some(code),
        code >= FIRST_FAILURE_STATUS,
    ensures
        interpret(head, body) == Err::<HttpResponseView, HttpErrorView>(
            HttpErrorView::RequestFailed(code),
        ),
        replay(parts.push(contribution(interpret(head, body)))) == Stage::Finished(
            Err(DownloadErrorView::Http(HttpErrorView::RequestFailed(code))),
        ),
{
    assert(parts.push(contribution(interpret(head, body))).drop_last() =~= parts);
}

} // verus!
