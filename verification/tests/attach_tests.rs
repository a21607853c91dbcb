use lazytickets::attach::{attr, fetch_step, image_urls, split_content, ContentPart, FetchStep, ImageRef};

#[test]
fn parses_html_img_with_dimensions() {
    let body = "before\n<img width=\"632\" height=\"637\" alt=\"Image\" src=\"https://github.com/user-attachments/assets/abc\" />\nafter";
    let parts = split_content(body);
    assert_eq!(parts.len(), 3);
    assert_eq!(parts[0], ContentPart::Text("before\n".into()));
    assert_eq!(
        parts[1],
        ContentPart::Image(ImageRef {
            url: "https://github.com/user-attachments/assets/abc".into(),
            width: Some(632),
            height: Some(637),
        })
    );
    assert_eq!(parts[2], ContentPart::Text("\nafter".into()));
}

#[test]
fn parses_markdown_image_but_not_links() {
    let body = "see ![a shot](https://x/y.png) and [a link](https://x/z) end";
    let urls = image_urls(body);
    assert_eq!(urls, vec!["https://x/y.png".to_string()]);
}

#[test]
fn handles_multiple_images_in_order() {
    let body = "<img src='https://a/1.png'>mid<img src='https://a/2.png'>![m](https://a/3.png)";
    assert_eq!(
        image_urls(body),
        vec![
            "https://a/1.png".to_string(),
            "https://a/2.png".to_string(),
            "https://a/3.png".to_string(),
        ]
    );
}

#[test]
fn body_without_images_is_one_text_part() {
    let parts = split_content("just some text");
    assert_eq!(parts, vec![ContentPart::Text("just some text".into())]);
}

#[test]
fn ignores_data_src_lookalike_attribute() {
    // `data-src` must not be picked up when we ask for `src`.
    let tag = "<img data-src=\"decoy\" src=\"real.png\">";
    assert_eq!(attr(tag, "src").as_deref(), Some("real.png"));
}

#[test]
fn attr_is_case_insensitive_and_handles_missing_values() {
    assert_eq!(attr("<IMG SRC=\"a.png\">", "src").as_deref(), Some("a.png"));
    assert_eq!(attr("<img alt=x>", "src"), None);
    // Only quoted values count.
    assert_eq!(attr("<img width=40 height='30'>", "width"), None);
    assert_eq!(attr("<img width=40 height='30'>", "height").as_deref(), Some("30"));
}

#[test]
fn empty_body_has_no_parts_and_no_images() {
    assert!(split_content("").is_empty());
    assert!(image_urls("").is_empty());
}

#[test]
fn non_numeric_dimensions_are_dropped() {
    let parts = split_content("<img width=\"wide\" height=\"12\" src=\"u\">");
    assert_eq!(
        parts,
        vec![ContentPart::Image(ImageRef { url: "u".into(), width: None, height: Some(12) })]
    );
}

#[test]
fn fetch_steps_follow_redirects_and_refuse_errors() {
    assert_eq!(fetch_step(200), FetchStep::Read);
    assert_eq!(fetch_step(302), FetchStep::Follow);
    assert_eq!(fetch_step(300), FetchStep::Follow);
    assert_eq!(fetch_step(399), FetchStep::Follow);
    assert_eq!(fetch_step(204), FetchStep::Refuse);
    assert_eq!(fetch_step(404), FetchStep::Refuse);
}
