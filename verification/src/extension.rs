//! Which declared content types are stored, and under which extension.

use vstd::prelude::*;

verus! {

/// The extension of a stored file. Only these are accepted.
#[derive(Clone, Copy, Debug, PartialEq, Eq, Structural)]
pub enum Extension {
    Jpg,
    Png,
}

impl Extension {
    /// The extension as it stands in a file name, without the dot.
    pub open spec fn text(self) -> Seq<char> {
        match self {
            Extension::Jpg => seq!['j', 'p', 'g'],
            Extension::Png => seq!['p', 'n', 'g'],
        }
    }

    /// The extension as it stands in a file name, without the dot.
    pub fn as_str(self) -> (s: &'static str)
        ensures
            s@ == self.text(),
    {
        proof {
            reveal_strlit("jpg");
            reveal_strlit("png");
        }
        match self {
            Extension::Jpg => {
                assert("jpg"@ =~= seq!['j', 'p', 'g']);
                "jpg"
            },
            Extension::Png => {
                assert("png"@ =~= seq!['p', 'n', 'g']);
                "png"
            },
        }
    }
}

/// The extension that a media type is stored under: `jpg` for `image/jpeg`,
/// `png` for `image/png`, none for any other. A subtype with a suffix, as in
/// `image/png+xml`, is another type.
pub open spec fn accepted(
    type_: Seq<char>,
    subtype: Seq<char>,
    suffix: Option<Seq<char>>,
) -> Option<Extension> {
    if suffix is Some || type_ != seq!['i', 'm', 'a', 'g', 'e'] {
        None
    } else if subtype == seq!['j', 'p', 'e', 'g'] {
        Some(Extension::Jpg)
    } else if subtype == seq!['p', 'n', 'g'] {
        Some(Extension::Png)
    } else {
        None
    }
}

/// The type, the subtype and the suffix that the `mime` crate reads out of a
/// content type, or `None` where it does not parse.
pub uninterp spec fn media_type(content_type: Seq<char>) -> Option<
    (Seq<char>, Seq<char>, Option<Seq<char>>),
>;

/// The extension that a declared content type is stored under, if it is accepted.
pub open spec fn classified(content_type: Seq<char>) -> Option<Extension> {
    match media_type(content_type) {
        Some((type_, subtype, suffix)) => accepted(type_, subtype, suffix),
        None => None,
    }
}

/// Parses a content type with `mime::Mime::from_str` and hands out what
/// `Mime::type_`, `Mime::subtype` and `Mime::suffix` give for it.
///
/// Trusted: the result is a function of the text alone.
#[verifier::external_body]
fn parse_media_type(content_type: &str) -> (parts: Option<(String, String, Option<String>)>)
    ensures
        parts.deep_view() == media_type(content_type@),
{
    match content_type.parse::<mime::Mime>() {
        Ok(m) => Some(
            (
                m.type_().as_str().to_owned(),
                m.subtype().as_str().to_owned(),
                m.suffix().map(|name| name.as_str().to_owned()),
            ),
        ),
        Err(_) => None,
    }
}

/// Whether two texts are the same.
fn same_text(a: &str, b: &str) -> (same: bool)
    ensures
        same == (a@ == b@),
{
    a.to_owned() == b.to_owned()
}

/// Classifies a type, a subtype and a suffix: `image/jpeg` is stored as
/// `jpg`, `image/png` as `png`, and nothing else is stored.
pub fn classify_parts(type_: &str, subtype: &str, suffix: Option<&str>) -> (ext: Option<Extension>)
    ensures
        ext == accepted(type_@, subtype@, suffix.deep_view()),
{
    proof {
        reveal_strlit("image");
        reveal_strlit("jpeg");
        reveal_strlit("png");
        assert("image"@ =~= seq!['i', 'm', 'a', 'g', 'e']);
        assert("jpeg"@ =~= seq!['j', 'p', 'e', 'g']);
        assert("png"@ =~= seq!['p', 'n', 'g']);
    }
    if suffix.is_some() || !same_text(type_, "image") {
        None
    } else if same_text(subtype, "jpeg") {
        Some(Extension::Jpg)
    } else if same_text(subtype, "png") {
        Some(Extension::Png)
    } else {
        None
    }
}

/// Classifies a declared content type. What does not parse as a media type
/// is rejected like any type that is not accepted.
pub fn classify(content_type: &str) -> (ext: Option<Extension>)
    ensures
        ext == classified(content_type@),
{
    match parse_media_type(content_type) {
        Some((type_, subtype, suffix)) => {
            let suffix: Option<&str> = match &suffix {
                Some(text) => Some(text.as_str()),
                None => None,
            };
            classify_parts(type_.as_str(), subtype.as_str(), suffix)
        },
        None => None,
    }
}

} // verus!
