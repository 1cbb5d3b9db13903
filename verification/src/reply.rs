//! What a request is answered with: a status, headers and a body.
use vstd::prelude::*;

verus! {

/// Standard error response body returned by all 4xx/5xx responses.
#[derive(Debug, PartialEq, Eq)]
pub struct ErrorResponse {
    /// Human-readable error message.
    pub error: String,
}

/// The body of a reply.
#[derive(Debug, PartialEq, Eq)]
pub enum Body {
    /// A JSON object with the error message.
    Json(ErrorResponse),
    /// Binary data, whose type a header gives.
    Bytes(Vec<u8>),
}

/// A header line of a reply.
#[derive(Debug, PartialEq, Eq)]
pub struct Header {
    /// The name of the header, in lower case.
    pub name: String,
    /// Its value.
    pub value: String,
}

/// The answer to a request.
#[derive(Debug, PartialEq, Eq)]
pub struct Reply {
    /// The HTTP status code.
    pub status: u16,
    /// The headers that are set besides those that the body implies.
    pub headers: Vec<Header>,
    /// The body.
    pub body: Body,
}

/// The body of a reply as mathematical values.
pub enum BodyView {
    Json(Seq<char>),
    Bytes(Seq<u8>),
}

/// A reply as mathematical values.
pub struct ReplyView {
    pub status: u16,
    pub headers: Seq<(Seq<char>, Seq<char>)>,
    pub body: BodyView,
}

impl View for Body {
    type V = BodyView;

    open spec fn view(&self) -> BodyView {
        match self {
            Body::Json(response) => BodyView::Json(response.error@),
            Body::Bytes(bytes) => BodyView::Bytes(bytes@),
        }
    }
}

impl View for Reply {
    type V = ReplyView;

    open spec fn view(&self) -> ReplyView {
        ReplyView {
            status: self.status,
            headers: self.headers@.map_values(|h: Header| (h.name@, h.value@)),
            body: self.body@,
        }
    }
}

/// A reply with an error message in JSON.
pub open spec fn json_error(status: u16, message: Seq<char>) -> ReplyView {
    ReplyView { status, headers: Seq::empty(), body: BodyView::Json(message) }
}

/// A successful reply with a JPEG image.
pub open spec fn jpeg(image: Seq<u8>) -> ReplyView {
    ReplyView {
        status: 200,
        headers: seq![("content-type"@, "image/jpeg"@)],
        body: BodyView::Bytes(image),
    }
}

/// A successful reply with a ZIP archive.
pub open spec fn zip_archive(archive: Seq<u8>) -> ReplyView {
    ReplyView {
        status: 200,
        headers: seq![("content-type"@, "application/zip"@)],
        body: BodyView::Bytes(archive),
    }
}

/// A successful reply with a ZIP archive that a browser saves under a name.
pub open spec fn zip_download(archive: Seq<u8>) -> ReplyView {
    ReplyView {
        status: 200,
        headers: seq![
            ("content-type"@, "application/zip"@),
            ("content-disposition"@, "attachment; filename=\"extracted_frames.zip\""@),
        ],
        body: BodyView::Bytes(archive),
    }
}

/// Whether a reply is an error of one of these statuses with its message in JSON.
pub open spec fn is_error(reply: ReplyView, statuses: Set<u16>) -> bool {
    statuses.contains(reply.status) && reply.body is Json && reply.headers.len() == 0
}

/// Whether a reply hands out a JPEG image that is not empty.
pub open spec fn is_jpeg(reply: ReplyView) -> bool {
    reply == jpeg(reply.body->Bytes_0) && reply.body->Bytes_0.len() > 0
}

/// A reply with an error message in JSON.
pub fn json_reply(status: u16, message: &str) -> (reply: Reply)
    ensures
        reply@ == json_error(status, message@),
{
    let reply = Reply {
        status,
        headers: Vec::new(),
        body: Body::Json(ErrorResponse { error: message.to_owned() }),
    };
    assert(reply@.headers =~= Seq::empty());
    reply
}

/// A header with this name and value.
fn header(name: &str, value: &str) -> (header: Header)
    ensures
        header.name@ == name@,
        header.value@ == value@,
{
    Header { name: name.to_owned(), value: value.to_owned() }
}

/// The reply that hands out an extracted frame.
pub fn jpeg_reply(image: Vec<u8>) -> (reply: Reply)
    ensures
        reply@ == jpeg(image@),
{
    let reply = Reply {
        status: 200,
        headers: vec![header("content-type", "image/jpeg")],
        body: Body::Bytes(image),
    };
    assert(reply@.headers =~= jpeg(image@).headers);
    reply
}

/// The reply that hands out an archive of frames.
pub fn zip_reply(archive: Vec<u8>) -> (reply: Reply)
    ensures
        reply@ == zip_archive(archive@),
{
    let reply = Reply {
        status: 200,
        headers: vec![header("content-type", "application/zip")],
        body: Body::Bytes(archive),
    };
    assert(reply@.headers =~= zip_archive(archive@).headers);
    reply
}

/// The reply that hands out an archive of frames as a download.
pub fn zip_download_reply(archive: Vec<u8>) -> (reply: Reply)
    ensures
        reply@ == zip_download(archive@),
{
    let reply = Reply {
        status: 200,
        headers: vec![
            header("content-type", "application/zip"),
            header("content-disposition", "attachment; filename=\"extracted_frames.zip\""),
        ],
        body: Body::Bytes(archive),
    };
    assert(reply@.headers =~= zip_download(archive@).headers);
    reply
}

/// The reply to a JSON body that could not be read (a missing field, bad JSON):
/// a typed 422 with the reader's own words.
pub fn json_rejection_response(message: &str) -> (reply: Reply)
    ensures
        reply@ == json_error(422, message@),
{
    json_reply(422, message)
}

/// Whether a reply has this status and nothing but this message, in JSON.
pub open spec fn says(reply: ReplyView, status: u16, message: Seq<char>) -> bool {
    reply.status == status && reply.headers.len() == 0 && reply.body == BodyView::Json(message)
}

/// Whether a reply is a success that hands out just these bytes, with this type.
pub open spec fn hands_out(reply: ReplyView, content_type: Seq<char>, bytes: Seq<u8>) -> bool {
    &&& reply.status == 200
    &&& reply.body == BodyView::Bytes(bytes)
    &&& reply.headers.len() > 0
    &&& reply.headers[0] == ("content-type"@, content_type)
}

/// Every reply carries what it was made for, to the last byte: an error its status and
/// message, a success its bytes under their type. A download alone has a second header.
pub proof fn law_replies_carry_what_they_were_made_for(status: u16, message: Seq<char>, bytes: Seq<u8>)
    ensures
        says(json_error(status, message), status, message),
        hands_out(jpeg(bytes), "image/jpeg"@, bytes),
        jpeg(bytes).headers.len() == 1,
        hands_out(zip_archive(bytes), "application/zip"@, bytes),
        zip_archive(bytes).headers.len() == 1,
        hands_out(zip_download(bytes), "application/zip"@, bytes),
        zip_download(bytes).headers.len() == 2,
        zip_download(bytes).headers[1] == (
            "content-disposition"@,
            "attachment; filename=\"extracted_frames.zip\""@,
        ),
{
}

/// What is stated of a reply is stated of its own status, headers and body.
pub proof fn law_reply_is_seen_as_it_is(reply: Reply, i: int)
    ensures
        reply@.status == reply.status,
        reply@.headers.len() == reply.headers@.len(),
        0 <= i < reply.headers@.len() ==> reply@.headers[i] == (reply.headers@[i].name@, reply.headers@[i].value@),
        reply.body matches Body::Json(response) ==> reply@.body == BodyView::Json(response.error@),
        reply.body matches Body::Bytes(bytes) ==> reply@.body == BodyView::Bytes(bytes@),
{
}

} // verus!
