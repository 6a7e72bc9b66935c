//! Builds a SIP response to an inbound request (RFC 3261, 8.2.6).

use crate::headers::{headers_to, message_to, NameAddrView, Uri};
use crate::message::{
    first_value, header_views, lemma_first_value, message_cseq, push_header, Header, HeaderKind,
    HeaderView, Request, RequestView, Response, ResponseView, StatusCode, StatusView,
};
use crate::stack::transaction::{only_kind, request_key, response_key};
use crate::text::{decimal, decimal_text};
use vstd::prelude::*;
use vstd::string::*;

verus! {

/// A body to attach to a response: its content type and bytes.
#[derive(Debug)]
pub struct ResponseBody<'a> {
    /// The content type.
    pub content_type: &'a str,
    /// The bytes.
    pub bytes: Vec<u8>,
}

/// A body, its content type as characters.
pub struct BodyView {
    pub content_type: Seq<char>,
    pub bytes: Seq<u8>,
}

impl<'a> View for ResponseBody<'a> {
    type V = BodyView;

    open spec fn view(&self) -> BodyView {
        BodyView { content_type: self.content_type@, bytes: self.bytes@ }
    }
}

/// Whether a response repeats the headers of this kind from its request.
pub open spec fn is_echoed(kind: HeaderKind) -> bool {
    kind == HeaderKind::Via || kind == HeaderKind::From || kind == HeaderKind::CallId || kind
        == HeaderKind::CSeq || kind == HeaderKind::RecordRoute
}

/// The headers that a response repeats, in order.
pub open spec fn echoed(h: Seq<HeaderView>) -> Seq<HeaderView>
    decreases h.len(),
{
    if h.len() == 0 {
        Seq::empty()
    } else if is_echoed(h[0].kind) {
        seq![h[0]] + echoed(h.skip(1))
    } else {
        echoed(h.skip(1))
    }
}

/// The `To` of a response: that of the request, with `tag` added when it has none.
pub open spec fn answered_to(to: NameAddrView, tag: Option<Seq<char>>) -> NameAddrView {
    match (to.tag, tag) {
        (None, Some(t)) => to.with_tag(t),
        _ => to,
    }
}

/// The response to a request: `Via`, `From`, `Call-ID`, `CSeq` and `Record-Route` repeated, `To`
/// with a tag, a contact and a body if given, and the length of the body. `None` when the
/// request has no readable `To`.
pub open spec fn response_to(
    request: RequestView,
    status: StatusView,
    to_tag: Option<Seq<char>>,
    contact: Option<Seq<char>>,
    body: Option<BodyView>,
) -> Option<ResponseView> {
    match message_to(request.headers) {
        Some(to) => Some(
            ResponseView {
                status,
                version: request.version,
                headers: echoed(request.headers) + seq![
                    HeaderView::known(HeaderKind::To, answered_to(to, to_tag).text()),
                ] + match contact {
                    Some(uri) => seq![HeaderView::known(HeaderKind::Contact, "<"@ + uri + ">"@)],
                    None => Seq::empty(),
                } + match body {
                    Some(b) => seq![HeaderView::known(HeaderKind::ContentType, b.content_type)],
                    None => Seq::empty(),
                } + seq![
                    HeaderView::known(
                        HeaderKind::ContentLength,
                        decimal(
                            match body {
                                Some(b) => b.bytes.len(),
                                None => 0,
                            },
                        ),
                    ),
                ],
                body: match body {
                    Some(b) => b.bytes,
                    None => Seq::empty(),
                },
            },
        ),
        None => None,
    }
}

fn echo_headers(h: &Vec<Header>) -> (res: Vec<Header>)
    ensures
        header_views(res@) == echoed(header_views(h@)),
{
    let mut out: Vec<Header> = Vec::new();
    let ghost all = header_views(h@);
    let mut i: usize = 0;
    assert(all.skip(0) =~= all);
    assert(header_views(out@) + echoed(all) =~= echoed(all));
    while i < h.len()
        invariant
            i <= h@.len(),
            all == header_views(h@),
            header_views(out@) + echoed(all.skip(i as int)) == echoed(all),
        decreases h.len() - i,
    {
        let ghost before = header_views(out@);
        let ghost rest = all.skip(i as int);
        assert(rest[0] == h@[i as int]@);
        assert(rest.skip(1) =~= all.skip(i as int + 1));
        match h[i].kind {
            HeaderKind::Via
            | HeaderKind::From
            | HeaderKind::CallId
            | HeaderKind::CSeq
            | HeaderKind::RecordRoute => {
                push_header(&mut out, h[i].copy());
                assert(header_views(out@) + echoed(rest.skip(1)) =~= before + echoed(rest));
            },
            _ => {},
        }
        i += 1;
    }
    assert(header_views(out@) + echoed(all.skip(i as int)) =~= header_views(out@));
    out
}

/// The characters of an optional text.
pub open spec fn opt_str(s: Option<&str>) -> Option<Seq<char>> {
    match s {
        Some(t) => Some(t@),
        None => None,
    }
}

/// The text of an optional URI.
pub open spec fn opt_uri(u: Option<&Uri>) -> Option<Seq<char>> {
    match u {
        Some(x) => Some(x@.text),
        None => None,
    }
}

/// An optional body as a view.
pub open spec fn opt_body(b: Option<ResponseBody<'_>>) -> Option<BodyView> {
    match b {
        Some(x) => Some(x@),
        None => None,
    }
}

/// Builds a response to `request` with `status`. A request without a tag in `To` is answered
/// with `to_tag` there; a tag that stands there already is kept.
pub fn build_response(
    request: &Request,
    status: StatusCode,
    to_tag: Option<&str>,
    contact: Option<&Uri>,
    body: Option<ResponseBody<'_>>,
) -> (res: Option<Response>)
    ensures
        match res {
            Some(r) => response_to(
                request@,
                status@,
                opt_str(to_tag),
                opt_uri(contact),
                opt_body(body),
            ) == Some(r@),
            None => response_to(
                request@,
                status@,
                opt_str(to_tag),
                opt_uri(contact),
                opt_body(body),
            ) is None,
        },
{
    let ghost want = response_to(
        request@,
        status@,
        opt_str(to_tag),
        opt_uri(contact),
        opt_body(body),
    );
    let mut headers = echo_headers(&request.headers);
    let to = match headers_to(&request.headers) {
        Some(to) => to,
        None => return None,
    };
    let answered = match (&to.tag, to_tag) {
        (None, Some(tag)) => to.with_tag(tag),
        _ => to,
    };
    push_header(&mut headers, Header::new(HeaderKind::To, answered.to_text().as_str()));
    if let Some(uri) = contact {
        let mut value = String::from_str("<");
        value.append(uri.text.as_str());
        value.append(">");
        push_header(&mut headers, Header::new(HeaderKind::Contact, value.as_str()));
    }
    let bytes = match body {
        Some(b) => {
            push_header(&mut headers, Header::new(HeaderKind::ContentType, b.content_type));
            b.bytes
        },
        None => Vec::new(),
    };
    push_header(
        &mut headers,
        Header::new(HeaderKind::ContentLength, decimal_text(bytes.len() as u64).as_str()),
    );
    let res = Response { status_code: status, version: request.version, headers, body: bytes };
    assert(want is Some);
    assert(res@ =~= want->0);
    Some(res)
}

proof fn lemma_first_of_echoed(h: Seq<HeaderView>, rest: Seq<HeaderView>, kind: HeaderKind)
    requires
        is_echoed(kind),
        forall|i: int| 0 <= i < rest.len() ==> (#[trigger] rest[i]).kind != kind,
    ensures
        first_value(echoed(h) + rest, kind) == first_value(h, kind),
    decreases h.len(),
{
    if h.len() == 0 {
        assert(echoed(h) + rest =~= rest);
        crate::message::lemma_no_value(rest, kind);
    } else {
        lemma_first_of_echoed(h.skip(1), rest, kind);
        if is_echoed(h[0].kind) {
            let all = echoed(h) + rest;
            assert(all[0] == h[0]);
            assert(all.skip(1) =~= echoed(h.skip(1)) + rest);
        }
    }
}

proof fn lemma_only_of_echoed(h: Seq<HeaderView>, rest: Seq<HeaderView>, kind: HeaderKind)
    requires
        is_echoed(kind),
        forall|i: int| 0 <= i < rest.len() ==> (#[trigger] rest[i]).kind != kind,
    ensures
        only_kind(echoed(h) + rest, kind) == only_kind(h, kind),
    decreases h.len() + rest.len(),
{
    if h.len() == 0 {
        assert(echoed(h) + rest =~= rest);
        if rest.len() > 0 {
            assert(rest[0].kind != kind);
            assert forall|i: int| 0 <= i < rest.skip(1).len() implies (#[trigger] rest.skip(
                1,
            )[i]).kind != kind by {
                assert(rest[i + 1].kind != kind);
            }
            lemma_only_of_echoed(h, rest.skip(1), kind);
            assert(echoed(h) + rest.skip(1) =~= rest.skip(1));
        }
    } else {
        lemma_only_of_echoed(h.skip(1), rest, kind);
        if is_echoed(h[0].kind) {
            let all = echoed(h) + rest;
            assert(all[0] == h[0]);
            assert(all.skip(1) =~= echoed(h.skip(1)) + rest);
        }
    }
}

spec fn tail_of(r: ResponseView, h: Seq<HeaderView>) -> Seq<HeaderView> {
    r.headers.skip(echoed(h).len() as int)
}

/// A response repeats every `Via` and every `Record-Route` of its request, in order, and belongs
/// to the transaction of its request.
pub proof fn response_follows_its_request(
    request: RequestView,
    status: StatusView,
    to_tag: Option<Seq<char>>,
    contact: Option<Seq<char>>,
    body: Option<BodyView>,
)
    requires
        response_to(request, status, to_tag, contact, body) is Some,
    ensures
        ({
            let r = response_to(request, status, to_tag, contact, body)->0;
            &&& only_kind(r.headers, HeaderKind::Via) == only_kind(
                request.headers,
                HeaderKind::Via,
            )
            &&& only_kind(r.headers, HeaderKind::RecordRoute) == only_kind(
                request.headers,
                HeaderKind::RecordRoute,
            )
            &&& (message_cseq(request.headers) matches Some((_, method)) && method
                == request.method) ==> response_key(r) == request_key(request)
        }),
{
    let r = response_to(request, status, to_tag, contact, body)->0;
    let h = request.headers;
    let rest = tail_of(r, h);
    assert(r.headers =~= echoed(h) + rest);
    assert forall|i: int| 0 <= i < rest.len() implies !is_echoed((#[trigger] rest[i]).kind) by {
        assert(rest[i] == r.headers[i + echoed(h).len()]);
    }
    lemma_first_of_echoed(h, rest, HeaderKind::Via);
    lemma_first_of_echoed(h, rest, HeaderKind::CSeq);
    lemma_only_of_echoed(h, rest, HeaderKind::Via);
    lemma_only_of_echoed(h, rest, HeaderKind::RecordRoute);
}

/// A tag that stands in the `To` of a request is kept; else the given tag is added to it.
pub proof fn response_tags_the_callee(
    request: RequestView,
    status: StatusView,
    to_tag: Option<Seq<char>>,
    contact: Option<Seq<char>>,
    body: Option<BodyView>,
)
    requires
        response_to(request, status, to_tag, contact, body) is Some,
    ensures
        ({
            let to = message_to(request.headers)->0;
            let r = response_to(request, status, to_tag, contact, body)->0;
            &&& first_value(r.headers, HeaderKind::To) == Some(answered_to(to, to_tag).text())
            &&& to.tag is Some ==> answered_to(to, to_tag) == to
            &&& to.tag is None && to_tag is Some ==> answered_to(to, to_tag).tag == to_tag
        }),
{
    let r = response_to(request, status, to_tag, contact, body)->0;
    let h = request.headers;
    let n = echoed(h).len() as int;
    lemma_echoed_kinds(h);
    assert(r.headers[n].kind == HeaderKind::To);
    assert forall|j: int| 0 <= j < n implies (#[trigger] r.headers[j]).kind != HeaderKind::To by {
        assert(r.headers[j] == echoed(h)[j]);
    }
    lemma_first_value(r.headers, HeaderKind::To, n);
}

proof fn lemma_echoed_kinds(h: Seq<HeaderView>)
    ensures
        forall|i: int| 0 <= i < echoed(h).len() ==> is_echoed((#[trigger] echoed(h)[i]).kind),
    decreases h.len(),
{
    if h.len() > 0 {
        lemma_echoed_kinds(h.skip(1));
    }
}

/// What a response carries: the given status, the version, path, initiator, `Call-ID` and `CSeq` of
/// the request, its `To`, with the tag added if it had none, the contact in angle brackets, and the
/// body with its type and length. A request is answered whenever its `To` can be read.
pub proof fn response_answers_its_request(
    request: RequestView,
    status: StatusView,
    to_tag: Option<Seq<char>>,
    contact: Option<Seq<char>>,
    body: Option<BodyView>,
)
    ensures
        response_to(request, status, to_tag, contact, body) is Some <==> message_to(
            request.headers,
        ) is Some,
        response_to(request, status, to_tag, contact, body) matches Some(r) ==> {
            let to = message_to(request.headers)->0;
            let h = r.headers;
            &&& r.status == status
            &&& r.version == request.version
            &&& first_value(h, HeaderKind::Via) == first_value(request.headers, HeaderKind::Via)
            &&& first_value(h, HeaderKind::From) == first_value(request.headers, HeaderKind::From)
            &&& first_value(h, HeaderKind::CallId) == first_value(
                request.headers,
                HeaderKind::CallId,
            )
            &&& first_value(h, HeaderKind::CSeq) == first_value(request.headers, HeaderKind::CSeq)
            &&& first_value(h, HeaderKind::To) == match (to.tag, to_tag) {
                (None, Some(tag)) => Some(to.text() + ";tag="@ + tag),
                _ => Some(to.text()),
            }
            &&& first_value(h, HeaderKind::Contact) == match contact {
                Some(uri) => Some("<"@ + uri + ">"@),
                None => None,
            }
            &&& first_value(h, HeaderKind::ContentType) == match body {
                Some(b) => Some(b.content_type),
                None => None,
            }
            &&& match body {
                Some(b) => r.body == b.bytes && first_value(h, HeaderKind::ContentLength) == Some(
                    decimal(b.bytes.len()),
                ),
                None => r.body.len() == 0 && first_value(h, HeaderKind::ContentLength) == Some(
                    "0"@,
                ),
            }
        },
{
    if let Some(r) = response_to(request, status, to_tag, contact, body) {
        let h = request.headers;
        let to = message_to(h)->0;
        let n = echoed(h).len() as int;
        let rest = tail_of(r, h);
        assert(r.headers =~= echoed(h) + rest);
        assert forall|i: int| 0 <= i < rest.len() implies !is_echoed((#[trigger] rest[i]).kind) by {
            assert(rest[i] == r.headers[i + n]);
        }
        lemma_first_of_echoed(h, rest, HeaderKind::Via);
        lemma_first_of_echoed(h, rest, HeaderKind::From);
        lemma_first_of_echoed(h, rest, HeaderKind::CallId);
        lemma_first_of_echoed(h, rest, HeaderKind::CSeq);
        response_tags_the_callee(request, status, to_tag, contact, body);
        if let (None, Some(tag)) = (to.tag, to_tag) {
            let params = to.params.push(";tag="@ + tag);
            assert(params.drop_last() =~= to.params);
            assert(to.with_tag(tag).text() =~= to.text() + ";tag="@ + tag);
        }
        lemma_echoed_kinds(h);
        assert forall|j: int| 0 <= j < n implies is_echoed((#[trigger] r.headers[j]).kind) by {
            assert(r.headers[j] == echoed(h)[j]);
        }
        let c: int = if contact is Some {
            1
        } else {
            0
        };
        let b: int = if body is Some {
            1
        } else {
            0
        };
        if contact is Some {
            lemma_first_value(r.headers, HeaderKind::Contact, n + 1);
        } else {
            crate::message::lemma_no_value(r.headers, HeaderKind::Contact);
        }
        if body is Some {
            lemma_first_value(r.headers, HeaderKind::ContentType, n + 1 + c);
        } else {
            crate::message::lemma_no_value(r.headers, HeaderKind::ContentType);
            reveal_strlit("0");
            reveal_with_fuel(decimal, 1);
            assert(decimal(0) =~= "0"@);
        }
        lemma_first_value(r.headers, HeaderKind::ContentLength, n + 1 + c + b);
    }
}

/// A response holds no headers but those that it repeats, `To`, `Contact`, `Content-Type` and
/// `Content-Length`.
pub proof fn lemma_response_kinds(
    request: RequestView,
    status: StatusView,
    to_tag: Option<Seq<char>>,
    contact: Option<Seq<char>>,
    body: Option<BodyView>,
)
    requires
        response_to(request, status, to_tag, contact, body) is Some,
    ensures
        ({
            let h = response_to(request, status, to_tag, contact, body)->0.headers;
            forall|i: int|
                0 <= i < h.len() ==> is_echoed((#[trigger] h[i]).kind) || h[i].kind
                    == HeaderKind::To || h[i].kind == HeaderKind::Contact || h[i].kind
                    == HeaderKind::ContentType || h[i].kind == HeaderKind::ContentLength
        }),
{
    let h = response_to(request, status, to_tag, contact, body)->0.headers;
    let e = echoed(request.headers);
    lemma_echoed_kinds(request.headers);
    assert forall|i: int| 0 <= i < h.len() implies is_echoed((#[trigger] h[i]).kind) || h[i].kind
        == HeaderKind::To || h[i].kind == HeaderKind::Contact || h[i].kind == HeaderKind::ContentType
        || h[i].kind == HeaderKind::ContentLength by {
        if i < e.len() {
            assert(h[i] == e[i]);
        }
    }
}

} // verus!
