use book_tools::svg::{pixmap_error, render_svg_to_png};

#[test]
fn svg_assets_can_be_rendered_to_png() {
    let svg = br#"<svg xmlns='http://www.w3.org/2000/svg' width='8' height='8'><rect width='8' height='8' fill='red'/></svg>"#;
    let png = render_svg_to_png(svg).expect("svg renders to png");

    assert!(png.len() > 16);
    assert_eq!(&png[..8], b"\x89PNG\r\n\x1a\n");
}

#[test]
fn invalid_svg_is_reported() {
    match render_svg_to_png(b"not an svg") {
        Err(e) => assert!(e.starts_with("Invalid SVG: ")),
        Ok(_) => panic!("error expected"),
    }
}

#[test]
fn pixmap_message_names_the_size() {
    assert_eq!(pixmap_error(0, 17), "Could not create pixmap for 0x17");
    assert_eq!(pixmap_error(4096, 1), "Could not create pixmap for 4096x1");
}

