//! Inbound requests in a dialog that are handed to the consumer, and its answers to them.

use crate::message::{
    first_value, header_views, lemma_first_kept, push_header, status_of, Header, HeaderKind,
    HeaderView, Method, Request, RequestView, Response,
    ResponseView, StatusCode, StatusView,
};
use crate::stack::response::{build_response, response_to, BodyView, ResponseBody};
use vstd::prelude::*;

verus! {

/// An inbound request in a dialog that waits for the answer of the consumer.
#[derive(Debug)]
pub struct InboundRequest {
    /// The request.
    pub request: Request,
}

/// The answer to an inbound request: with an SDP body if given, and the extra headers at the end.
/// `None` when the request has no readable `To`.
pub open spec fn inbound_answer(
    request: RequestView,
    status: StatusView,
    extra: Seq<HeaderView>,
    sdp: Option<Seq<u8>>,
) -> Option<ResponseView> {
    match response_to(
        request,
        status,
        None,
        None,
        match sdp {
            Some(bytes) => Some(BodyView { content_type: "application/sdp"@, bytes }),
            None => None,
        },
    ) {
        Some(r) => Some(ResponseView { headers: r.headers + extra, ..r }),
        None => None,
    }
}

impl InboundRequest {
    /// The method: `INVITE` for a re-INVITE, `INFO`, `NOTIFY` or `REFER`.
    pub fn method(&self) -> (res: Method)
        ensures
            res == self.request.method,
    {
        self.request.method
    }

    /// The headers of the request.
    pub fn headers(&self) -> (res: &Vec<Header>)
        ensures
            *res == self.request.headers,
    {
        &self.request.headers
    }

    /// The body of the request.
    pub fn body(&self) -> (res: &[u8])
        ensures
            res@ == self.request.body@,
    {
        self.request.body.as_slice()
    }

    /// The answer with `status`, `extra_headers` and an optional SDP body.
    pub fn respond(
        self,
        status: StatusCode,
        extra_headers: Vec<Header>,
        sdp: Option<Vec<u8>>,
    ) -> (res: Option<Response>)
        ensures
            ({
                let want = inbound_answer(
                    self.request@,
                    status@,
                    header_views(extra_headers@),
                    match sdp {
                        Some(b) => Some(b@),
                        None => None,
                    },
                );
                match res {
                    Some(r) => want == Some(r@),
                    None => want is None,
                }
            }),
    {
        let body = match sdp {
            Some(bytes) => Some(ResponseBody { content_type: "application/sdp", bytes }),
            None => None,
        };
        let mut response = match build_response(&self.request, status, None, None, body) {
            Some(r) => r,
            None => return None,
        };
        let ghost start = response@;
        let ghost extra = header_views(extra_headers@);
        let mut i: usize = 0;
        assert(start.headers + extra.take(0) =~= start.headers);
        while i < extra_headers.len()
            invariant
                i <= extra_headers@.len(),
                extra == header_views(extra_headers@),
                header_views(response.headers@) == start.headers + extra.take(i as int),
                response.status_code@ == start.status,
                response.version == start.version,
                response.body@ == start.body,
            decreases extra_headers.len() - i,
        {
            push_header(&mut response.headers, extra_headers[i].copy());
            i += 1;
            assert(header_views(response.headers@) =~= start.headers + extra.take(i as int));
        }
        assert(extra.take(i as int) =~= extra);
        assert(response@ =~= ResponseView { headers: start.headers + extra, ..start });
        Some(response)
    }

    /// The answer `200 OK` without body.
    pub fn ok(self) -> (res: Option<Response>)
        ensures
            match res {
                Some(r) => inbound_answer(
                    self.request@,
                    status_of(200),
                    Seq::empty(),
                    None,
                ) == Some(r@),
                None => inbound_answer(self.request@, status_of(200), Seq::empty(), None) is None,
            },
    {
        let none: Vec<Header> = Vec::new();
        assert(header_views(none@) =~= Seq::<HeaderView>::empty());
        self.respond(StatusCode::from_code(200), none, None)
    }
}

/// What the answer to a request in a dialog carries: the given status, the `To`, `From`, `Call-ID`,
/// `CSeq` and `Via` of the request, an SDP body with its length if one is given, and the extra
/// headers at the end.
pub proof fn answer_follows_the_request(
    request: RequestView,
    status: StatusView,
    extra: Seq<HeaderView>,
    sdp: Option<Seq<u8>>,
)
    requires
        inbound_answer(request, status, extra, sdp) is Some,
        first_value(request.headers, HeaderKind::Via) is Some,
        first_value(request.headers, HeaderKind::From) is Some,
        first_value(request.headers, HeaderKind::CallId) is Some,
        first_value(request.headers, HeaderKind::CSeq) is Some,
    ensures
        ({
            let r = inbound_answer(request, status, extra, sdp)->0;
            let h = r.headers;
            let to = crate::headers::message_to(request.headers)->0;
            &&& r.status == status
            &&& extra.is_suffix_of(h)
            &&& first_value(h, HeaderKind::Via) == first_value(request.headers, HeaderKind::Via)
            &&& first_value(h, HeaderKind::From) == first_value(request.headers, HeaderKind::From)
            &&& first_value(h, HeaderKind::CallId) == first_value(
                request.headers,
                HeaderKind::CallId,
            )
            &&& first_value(h, HeaderKind::CSeq) == first_value(request.headers, HeaderKind::CSeq)
            &&& first_value(h, HeaderKind::To) == Some(to.text())
            &&& match sdp {
                Some(bytes) => r.body == bytes && first_value(h, HeaderKind::ContentType) == Some(
                    "application/sdp"@,
                ) && first_value(h, HeaderKind::ContentLength) == Some(
                    crate::text::decimal(bytes.len()),
                ),
                None => r.body.len() == 0 && first_value(h, HeaderKind::ContentLength) == Some(
                    "0"@,
                ),
            }
        }),
{
    let body = match sdp {
        Some(bytes) => Some(BodyView { content_type: "application/sdp"@, bytes }),
        None => None,
    };
    crate::stack::response::response_answers_its_request(request, status, None, None, body);
    let r = response_to(request, status, None, None, body)->0;
    lemma_first_kept(r.headers, extra, HeaderKind::Via);
    lemma_first_kept(r.headers, extra, HeaderKind::From);
    lemma_first_kept(r.headers, extra, HeaderKind::CallId);
    lemma_first_kept(r.headers, extra, HeaderKind::CSeq);
    lemma_first_kept(r.headers, extra, HeaderKind::To);
    lemma_first_kept(r.headers, extra, HeaderKind::ContentLength);
    if sdp is Some {
        lemma_first_kept(r.headers, extra, HeaderKind::ContentType);
    }
    assert(extra.is_suffix_of(r.headers + extra));
}

} // verus!
