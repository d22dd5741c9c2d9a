use helium::geometry::Position;
use helium::primitives::IntoSurface;
use helium::primitives::RectSurface;
use helium::primitives::Surface;
use helium::surface::TextSurface;

#[test]
fn renders_text_to_png_bytes() {
    let surface = TextSurface::new("Hello", "#ffffff", 16).expect("rendering plain text succeeds");
    assert_eq!(surface.text, "Hello");
    assert_eq!(surface.color, "#ffffff");
    assert_eq!(surface.font_size, 16);
    assert_eq!(surface.position, Position::new(0, 0));
    // A real png came back: non-empty, with the png signature, and sized.
    assert!(surface.img.len() > 8);
    assert_eq!(&surface.img[0..4], &[0x89, b'P', b'N', b'G']);
    assert!(surface.size.width > 0);
    assert!(surface.size.height > 0);
}

#[test]
fn zero_font_size_is_rejected() {
    assert!(TextSurface::new("Hello", "#000", 0).is_none());
}

#[test]
fn surface_geometry_accessors() {
    let mut surface = TextSurface::new("hi", "#000", 12).expect("rendering plain text succeeds");
    surface.position(10, 20);
    surface.size(30, 40);
    assert_eq!(surface.get_position(), Position::new(10, 20));
    let size = surface.get_size();
    assert_eq!((size.width, size.height), (30, 40));
    let bounds = surface.get_bounds();
    assert_eq!(bounds.x, [10, 40]);
    assert_eq!(bounds.y, [20, 60]);

    surface.width(7);
    surface.height(8);
    let size = surface.get_size();
    assert_eq!((size.width, size.height), (7, 8));
}

#[test]
fn into_surface_wraps_primitives() {
    let rect = RectSurface::new(
        Position::new(1, 2),
        helium::geometry::Size::new(3, 4),
        helium::colors::Rgba { r: 9, g: 9, b: 9, a: 255 },
    );
    match rect.into_surface() {
        Surface::Rect(r) => assert_eq!(r.position, Position::new(1, 2)),
        _ => panic!("a rectangle wraps as a rectangle"),
    }

    let text = TextSurface::new("x", "#000", 10).expect("rendering plain text succeeds");
    match text.into_surface() {
        Surface::Text(t) => assert_eq!(t.text, "x"),
        _ => panic!("text wraps as text"),
    }
}
