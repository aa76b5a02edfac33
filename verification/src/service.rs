//! The upload service's decisions: which route a request takes, and what
//! each route answers.  The HTTP transport itself stays outside; it hands
//! in the method, the path verdict and the raw body, and carries the
//! returned status, media kind and document back to the client.
use crate::form::{decode_form, form_fields, named_field_view};
use crate::multipart::{decode_multipart, multipart_fields, DecodedField};
use vstd::prelude::*;

verus! {

#[derive(Clone, Copy, PartialEq, Eq, Structural, Debug)]
pub enum RequestMethod {
    Get,
    Post,
    Other,
}

#[derive(Clone, Copy, PartialEq, Eq, Structural, Debug)]
pub enum Route {
    ServeForm,
    AcceptUpload,
    NotFound,
}

/// Which of the two body encodings a submission declared.
#[derive(Clone, Copy, PartialEq, Eq, Structural, Debug)]
pub enum BodyEncoding {
    UrlEncodedForm,
    SelfDescribingMultipart,
}

#[derive(Clone, Copy, PartialEq, Eq, Structural, Debug)]
pub enum MediaKind {
    Html,
    PlainText,
}

/// What a handler answers: a status code, a media kind and a document.
pub struct UploadResponse {
    pub status: u16,
    pub media: MediaKind,
    pub body: Vec<u8>,
}

/// `GET /` serves the form, `POST /` accepts a submission, everything
/// else is not found.
pub fn route_request(is_root_path: bool, method: RequestMethod) -> (r: Route)
    ensures
        r == (if is_root_path && method is Get {
            Route::ServeForm
        } else if is_root_path && method is Post {
            Route::AcceptUpload
        } else {
            Route::NotFound
        }),
{
    if is_root_path {
        match method {
            RequestMethod::Get => Route::ServeForm,
            RequestMethod::Post => Route::AcceptUpload,
            RequestMethod::Other => Route::NotFound,
        }
    } else {
        Route::NotFound
    }
}

/// `GET /`: the externally supplied form template, verbatim, as HTML
/// with status 200.
pub fn respond_form(template: &Vec<u8>) -> (r: UploadResponse)
    ensures
        r.status == 200,
        r.media is Html,
        r.body@ == template@,
{
    let mut body: Vec<u8> = Vec::new();
    crate::bytes::append_bytes(&mut body, template);
    assert(body@ =~= template@);
    UploadResponse { status: 200, media: MediaKind::Html, body }
}

pub open spec fn not_found_text() -> Seq<u8> {
    seq![78u8, 111u8, 116u8, 32u8, 102u8, 111u8, 117u8, 110u8, 100u8, 33u8]
}

/// Any other route: status 404, plain text `Not found!`.
pub fn respond_not_found() -> (r: UploadResponse)
    ensures
        r.status == 404,
        r.media is PlainText,
        r.body@ == not_found_text(),
{
    let mut body: Vec<u8> = Vec::new();
    body.push(78);
    body.push(111);
    body.push(116);
    body.push(32);
    body.push(102);
    body.push(111);
    body.push(117);
    body.push(110);
    body.push(100);
    body.push(33);
    assert(body@ =~= not_found_text());
    UploadResponse { status: 404, media: MediaKind::PlainText, body }
}

/// `POST /`: decodes the submission per its declared encoding and answers
/// the externally supplied acknowledgment document, HTML, status 200.
/// The decoded fields go back to the caller, which surfaces each value to
/// the operator; a malformed segment yields no field, never an error.
pub fn accept_upload(body: &Vec<u8>, encoding: BodyEncoding, ack_template: &Vec<u8>) -> (r: (
    Vec<DecodedField>,
    UploadResponse,
))
    ensures
        (match encoding {
            BodyEncoding::SelfDescribingMultipart => {
                &&& r.0@.map_values(|f: DecodedField| f.value@) == multipart_fields(body@)
                &&& forall|k: int| 0 <= k < r.0@.len() ==> (#[trigger] r.0@[k]).name is None
            },
            BodyEncoding::UrlEncodedForm => {
                &&& r.0@.map_values(|f: DecodedField| named_field_view(f)) == form_fields(body@)
                &&& forall|k: int| 0 <= k < r.0@.len() ==> (#[trigger] r.0@[k]).name is Some
            },
        }),
        r.1.status == 200,
        r.1.media is Html,
        r.1.body@ == ack_template@,
{
    let fields = match encoding {
        BodyEncoding::SelfDescribingMultipart => decode_multipart(body),
        BodyEncoding::UrlEncodedForm => decode_form(body),
    };
    let mut ack: Vec<u8> = Vec::new();
    crate::bytes::append_bytes(&mut ack, ack_template);
    assert(ack@ =~= ack_template@);
    (fields, UploadResponse { status: 200, media: MediaKind::Html, body: ack })
}

} // verus!
