use vstd::prelude::*;

use crate::colors::Rgba;
use crate::geometry::Position;
use crate::geometry::Size;
use crate::surface::TextSurface;

verus! {

/// A filled rectangle, ready to be painted.
#[derive(Clone, Copy, Debug, PartialEq, Eq, Structural)]
pub struct RectSurface {
    pub position: Position,
    pub size: Size,
    pub color: Rgba,
}

impl RectSurface {
    pub fn new(position: Position, size: Size, color: Rgba) -> (r: RectSurface)
        ensures
            r == (RectSurface { position, size, color }),
    {
        RectSurface { position, size, color }
    }
}

/// One primitive the renderer knows how to paint.
#[derive(Clone, Debug)]
pub enum Surface {
    Rect(RectSurface),
    Text(TextSurface),
}

/// Anything that can hand itself to the renderer as a primitive.
pub trait IntoSurface: Sized {
    spec fn spec_into_surface(self) -> Surface;

    fn into_surface(self) -> (r: Surface)
        ensures
            r == self.spec_into_surface(),
    ;
}

impl IntoSurface for Surface {
    open spec fn spec_into_surface(self) -> Surface {
        self
    }

    fn into_surface(self) -> (r: Surface) {
        self
    }
}

impl IntoSurface for RectSurface {
    open spec fn spec_into_surface(self) -> Surface {
        Surface::Rect(self)
    }

    fn into_surface(self) -> (r: Surface) {
        Surface::Rect(self)
    }
}

impl IntoSurface for TextSurface {
    open spec fn spec_into_surface(self) -> Surface {
        Surface::Text(self)
    }

    fn into_surface(self) -> (r: Surface) {
        Surface::Text(self)
    }
}

} // verus!
