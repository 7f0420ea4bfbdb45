//! What a request is answered with.

use vstd::prelude::*;

verus! {

/// The answer to an upload request.
#[derive(Debug, PartialEq, Eq)]
pub enum Response {
    /// Every file part was stored; `url` is where the last one can be fetched.
    Created { url: String },
    /// The request held no file part.
    BadRequest,
    /// A file part was declared as something other than a JPEG or PNG image.
    UnsupportedMediaType,
    /// A file could not be stored, or the request was malformed.
    InternalServerError,
}

/// A [`Response`] as plain values.
pub enum ResponseModel {
    Created { url: Seq<char> },
    BadRequest,
    UnsupportedMediaType,
    InternalServerError,
}

impl ResponseModel {
    /// The HTTP status code.
    pub open spec fn status(self) -> u16 {
        match self {
            ResponseModel::Created { .. } => 201,
            ResponseModel::BadRequest => 400,
            ResponseModel::UnsupportedMediaType => 415,
            ResponseModel::InternalServerError => 500,
        }
    }

    /// The media type of the body: the address of a stored file is sent as
    /// HTML, a message as plain text.
    pub open spec fn content_type(self) -> Seq<char> {
        match self {
            ResponseModel::Created { .. } => "text/html; charset=utf-8"@,
            _ => "text/plain; charset=utf-8"@,
        }
    }

    /// The body: the public URL on success, else a message that names the
    /// kind of failure and nothing of the storage.
    pub open spec fn body(self) -> Seq<char> {
        match self {
            ResponseModel::Created { url } => url,
            ResponseModel::BadRequest => "no file was uploaded"@,
            ResponseModel::UnsupportedMediaType => "only JPEG and PNG images are accepted"@,
            ResponseModel::InternalServerError => "the upload could not be stored"@,
        }
    }
}

impl View for Response {
    type V = ResponseModel;

    open spec fn view(&self) -> ResponseModel {
        match self {
            Response::Created { url } => ResponseModel::Created { url: url@ },
            Response::BadRequest => ResponseModel::BadRequest,
            Response::UnsupportedMediaType => ResponseModel::UnsupportedMediaType,
            Response::InternalServerError => ResponseModel::InternalServerError,
        }
    }
}

impl Clone for Response {
    fn clone(&self) -> (copy: Response)
        ensures
            copy@ == self@,
    {
        match self {
            Response::Created { url } => Response::Created { url: url.clone() },
            Response::BadRequest => Response::BadRequest,
            Response::UnsupportedMediaType => Response::UnsupportedMediaType,
            Response::InternalServerError => Response::InternalServerError,
        }
    }
}

impl Response {
    /// The HTTP status code.
    pub fn status(&self) -> (code: u16)
        ensures
            code == self@.status(),
    {
        match self {
            Response::Created { .. } => 201,
            Response::BadRequest => 400,
            Response::UnsupportedMediaType => 415,
            Response::InternalServerError => 500,
        }
    }

    /// The media type of the body.
    pub fn content_type(&self) -> (media_type: &'static str)
        ensures
            media_type@ == self@.content_type(),
    {
        match self {
            Response::Created { .. } => "text/html; charset=utf-8",
            _ => "text/plain; charset=utf-8",
        }
    }

    /// The body: the public URL on success, else a message that names the
    /// kind of failure and nothing of the storage.
    pub fn body(&self) -> (text: String)
        ensures
            text@ == self@.body(),
    {
        match self {
            Response::Created { url } => url.clone(),
            Response::BadRequest => "no file was uploaded".to_owned(),
            Response::UnsupportedMediaType => "only JPEG and PNG images are accepted".to_owned(),
            Response::InternalServerError => "the upload could not be stored".to_owned(),
        }
    }
}

/// The public address of a stored file: the base URL, a slash, the name.
pub open spec fn url_of(base_url: Seq<char>, name: Seq<char>) -> Seq<char> {
    base_url + seq!['/'] + name
}

/// Builds the public address of a stored file.
pub fn public_url(base_url: &str, name: &str) -> (url: String)
    ensures
        url@ == url_of(base_url@, name@),
{
    proof {
        reveal_strlit("/");
    }
    let mut url: String = base_url.to_owned();
    url.append("/");
    url.append(name);
    assert(url@ =~= url_of(base_url@, name@));
    url
}

} // verus!
