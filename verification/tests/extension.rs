use image_upload::extension::{classify, classify_parts, Extension};

#[test]
fn jpeg_is_stored_as_jpg() {
    assert_eq!(classify("image/jpeg"), Some(Extension::Jpg));
}

#[test]
fn png_is_stored_as_png() {
    assert_eq!(classify("image/png"), Some(Extension::Png));
}

#[test]
fn plain_text_is_rejected() {
    assert_eq!(classify("text/plain"), None);
}

#[test]
fn other_images_are_rejected() {
    assert_eq!(classify("image/gif"), None);
    assert_eq!(classify("image/webp"), None);
    assert_eq!(classify("image/svg+xml"), None);
    assert_eq!(classify("image/jpg"), None);
}

#[test]
fn other_types_with_an_accepted_subtype_are_rejected() {
    assert_eq!(classify("application/png"), None);
    assert_eq!(classify("text/jpeg"), None);
}

#[test]
fn what_is_no_media_type_is_rejected() {
    assert_eq!(classify(""), None);
    assert_eq!(classify("image"), None);
    assert_eq!(classify("image/"), None);
    assert_eq!(classify("/png"), None);
    assert_eq!(classify("image png"), None);
    assert_eq!(classify("imagé/png"), None);
}

#[test]
fn the_wildcard_is_rejected() {
    assert_eq!(classify("*/*"), None);
    assert_eq!(classify("image/*"), None);
}

#[test]
fn letter_case_of_the_declared_type_does_not_matter() {
    assert_eq!(classify("IMAGE/PNG"), Some(Extension::Png));
    assert_eq!(classify("Image/Jpeg"), Some(Extension::Jpg));
}

#[test]
fn parameters_of_the_declared_type_do_not_matter() {
    assert_eq!(classify("image/png; charset=utf-8"), Some(Extension::Png));
    assert_eq!(classify("image/jpeg;q=0.8"), Some(Extension::Jpg));
}

#[test]
fn a_subtype_with_a_suffix_is_another_type() {
    assert_eq!(classify("image/png+xml"), None);
    assert_eq!(classify("image/jpeg+json"), None);
    assert_eq!(classify("image/png+"), None);
    assert_eq!(classify("image/png+xml; charset=utf-8"), None);
    assert_eq!(classify("IMAGE/JPEG+ZIP"), None);
}

#[test]
fn parts_are_compared_letter_for_letter() {
    assert_eq!(classify_parts("image", "jpeg", None), Some(Extension::Jpg));
    assert_eq!(classify_parts("image", "png", None), Some(Extension::Png));
    assert_eq!(classify_parts("Image", "png", None), None);
    assert_eq!(classify_parts("image", "PNG", None), None);
    assert_eq!(classify_parts("image", "jpg", None), None);
    assert_eq!(classify_parts("image", "", None), None);
    assert_eq!(classify_parts("", "png", None), None);
    assert_eq!(classify_parts("text", "plain", None), None);
    assert_eq!(classify_parts("png", "image", None), None);
}

#[test]
fn parts_with_a_suffix_are_rejected() {
    assert_eq!(classify_parts("image", "png", Some("xml")), None);
    assert_eq!(classify_parts("image", "jpeg", Some("")), None);
    assert_eq!(classify_parts("text", "plain", Some("xml")), None);
}

#[test]
fn extensions_are_written_without_a_dot() {
    assert_eq!(Extension::Jpg.as_str(), "jpg");
    assert_eq!(Extension::Png.as_str(), "png");
}
