use image_upload::response::{public_url, Response};

#[test]
fn status_codes() {
    assert_eq!(Response::Created { url: "http://h/a.png".to_string() }.status(), 201);
    assert_eq!(Response::BadRequest.status(), 400);
    assert_eq!(Response::UnsupportedMediaType.status(), 415);
    assert_eq!(Response::InternalServerError.status(), 500);
}

#[test]
fn body_of_a_success_is_the_address() {
    let response = Response::Created { url: "http://localhost/images/a.png".to_string() };
    assert_eq!(response.body(), "http://localhost/images/a.png");
}

#[test]
fn bodies_of_failures_tell_them_apart() {
    let bad = Response::BadRequest.body();
    let unsupported = Response::UnsupportedMediaType.body();
    let failed = Response::InternalServerError.body();
    assert_eq!(bad, "no file was uploaded");
    assert_eq!(unsupported, "only JPEG and PNG images are accepted");
    assert_eq!(failed, "the upload could not be stored");
    assert_ne!(bad, unsupported);
    assert_ne!(bad, failed);
    assert_ne!(unsupported, failed);
}

#[test]
fn copy_of_a_response_equals_it() {
    let response = Response::Created { url: "http://h/x.jpg".to_string() };
    assert_eq!(response.clone(), response);
    assert_eq!(Response::BadRequest.clone(), Response::BadRequest);
    assert_eq!(Response::UnsupportedMediaType.clone(), Response::UnsupportedMediaType);
    assert_eq!(Response::InternalServerError.clone(), Response::InternalServerError);
}

#[test]
fn address_is_base_slash_name() {
    assert_eq!(
        public_url("http://localhost/images", "a-1.png"),
        "http://localhost/images/a-1.png"
    );
    assert_eq!(public_url("", "a.png"), "/a.png");
    assert_eq!(public_url("https://cdn.example", ""), "https://cdn.example/");
}

#[test]
fn address_is_sent_as_html_and_a_message_as_text() {
    let stored = Response::Created { url: "http://h/a.png".to_string() };
    assert_eq!(stored.content_type(), "text/html; charset=utf-8");
    assert_eq!(Response::BadRequest.content_type(), "text/plain; charset=utf-8");
    assert_eq!(Response::UnsupportedMediaType.content_type(), "text/plain; charset=utf-8");
    assert_eq!(Response::InternalServerError.content_type(), "text/plain; charset=utf-8");
}
