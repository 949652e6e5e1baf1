use grace::resource::{is_image_content_type, url_extension};

#[test]
fn images_are_recognised_by_content_type() {
    assert!(is_image_content_type(Some("image/png")));
    assert!(is_image_content_type(Some("image/")));
    assert!(!is_image_content_type(Some("image")));
    assert!(!is_image_content_type(Some("text/html")));
    assert!(!is_image_content_type(Some("Image/png")));
    assert!(!is_image_content_type(None));
}

#[test]
fn the_extension_follows_the_last_dot() {
    assert_eq!(url_extension("https://example.com/src/main.rs"), "rs");
    assert_eq!(url_extension("archive.tar.gz"), "gz");
    assert_eq!(url_extension("no-extension"), "no-extension");
    assert_eq!(url_extension("ends-with."), "");
    assert_eq!(url_extension(""), "");
    assert_eq!(url_extension("héllo.wörld"), "wörld");
}
