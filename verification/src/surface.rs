use vstd::prelude::*;

use crate::geometry::Bounds;
use crate::geometry::Position;
use crate::geometry::Size;

verus! {

/// What rasterizing a given text at a given font size yields: the png bytes
/// and the pixel width and height, or nothing when the renderer rejects the
/// input. Left unspecified here — it stands for the outside rasterizer's
/// output, which depends on the text and font size alone.
pub uninterp spec fn text_png_of(text: Seq<char>, font_size: u8) -> Option<(Seq<u8>, u32, u32)>;

/// Relies on `text_to_png::TextRenderer` (`default` and
/// `render_text_to_png_data`): rendering uses only the crate's embedded font,
/// so the png bytes and pixel size are a function of the text and the font
/// size alone; a font size of zero is rejected as invalid, and `"#000"` is
/// always a valid color.
#[verifier::external_body]
fn render_text_png(text: &str, font_size: u8) -> (r: Option<(Vec<u8>, u32, u32)>)
    ensures
        r is Some <==> text_png_of(text@, font_size) is Some,
        font_size == 0 ==> r is None,
        r matches Some(v) ==> text_png_of(text@, font_size) == Some((v.0@, v.1, v.2)),
{
    let renderer = text_to_png::TextRenderer::default();
    match renderer.render_text_to_png_data(text, font_size, "#000") {
        Ok(img) => Some((img.data, img.size.width, img.size.height)),
        Err(_) => None,
    }
}

/// A rasterized texture of text: the png bytes produced by the rasterizer,
/// with the screen rectangle the texture currently occupies. Decoding the png
/// and uploading it to a texture belong to the graphics backend.
#[derive(Clone, Debug)]
pub struct TextSurface {
    pub position: Position,
    pub size: Size,
    pub text: String,
    pub font_size: u8,
    pub color: String,
    pub img: Vec<u8>,
}

impl TextSurface {
    /// Rasterizes `text` with the embedded font at the origin, taking the
    /// texture's size from the rendered image. Returns `None` exactly when
    /// the rasterizer rejects the input — a zero font size always does.
    pub fn new(text: &str, color: &str, font_size: u8) -> (r: Option<TextSurface>)
        ensures
            r is Some <==> text_png_of(text@, font_size) is Some,
            font_size == 0 ==> r is None,
            r matches Some(s) ==> {
                &&& s.position == (Position { x: 0, y: 0 })
                &&& s.text@ == text@
                &&& s.font_size == font_size
                &&& s.color@ == color@
                &&& text_png_of(text@, font_size) == Some((s.img@, s.size.width, s.size.height))
            },
    {
        match render_text_png(text, font_size) {
            Some((data, width, height)) => Some(
                TextSurface {
                    position: Position::new(0, 0),
                    size: Size::new(width, height),
                    text: text.to_owned(),
                    font_size,
                    color: color.to_owned(),
                    img: data,
                },
            ),
            None => None,
        }
    }

    /// Set both extents at once.
    pub fn size(&mut self, width: u32, height: u32)
        ensures
            *final(self) == (TextSurface { size: (Size { width, height }), ..*old(self) }),
    {
        self.size = Size::new(width, height);
    }

    pub fn get_size(&self) -> (r: Size)
        ensures
            r == self.size,
    {
        self.size
    }

    /// The rectangle the texture spans: its origin extended by its size.
    pub fn get_bounds(&self) -> (r: Bounds)
        ensures
            r.x[0] == self.position.x,
            r.x[1] == self.position.x + self.size.width,
            r.y[0] == self.position.y,
            r.y[1] == self.position.y + self.size.height,
    {
        Bounds::new(self.position, self.size)
    }

    pub fn width(&mut self, width: u32)
        ensures
            *final(self) == (TextSurface {
                size: (Size { width, height: old(self).size.height }),
                ..*old(self)
            }),
    {
        self.size.width = width;
    }

    pub fn height(&mut self, height: u32)
        ensures
            *final(self) == (TextSurface {
                size: (Size { width: old(self).size.width, height }),
                ..*old(self)
            }),
    {
        self.size.height = height;
    }

    pub fn position(&mut self, x: i32, y: i32)
        ensures
            *final(self) == (TextSurface { position: (Position { x, y }), ..*old(self) }),
    {
        self.position.x = x;
        self.position.y = y;
    }

    pub fn get_position(&self) -> (r: Position)
        ensures
            r == self.position,
    {
        self.position
    }
}

} // verus!
