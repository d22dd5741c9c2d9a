use vstd::prelude::*;

use crate::colors::Color;
use crate::ident::fresh_widget_id;

verus! {

/// The one-child layout a container uses: padding on every side.
#[derive(Clone, Copy, Debug, PartialEq, Eq, Structural)]
pub struct BlockLayout {
    pub padding: u32,
}

impl BlockLayout {
    pub fn new(padding: u32) -> (r: BlockLayout)
        ensures
            r == (BlockLayout { padding }),
    {
        BlockLayout { padding }
    }
}

/// The rendering-ready form of a widget: its identity, the fill painted
/// behind it, its padding, and its children's bodies in order.
#[derive(Debug)]
pub struct WidgetBody {
    pub id: String,
    pub color: Color,
    pub padding: u32,
    pub children: Vec<WidgetBody>,
}

/// What every widget provides to the toolkit: a rendering-ready body. The
/// application implements this for its own widgets; the contract ties the
/// body to the identity the implementation declares.
pub trait Widget: Sized {
    /// The identity the widget's body will carry.
    spec fn spec_id(&self) -> Seq<char>;

    fn build(&self) -> (r: WidgetBody)
        ensures
            r.id@ == self.spec_id(),
    ;
}

/// A container widget that wraps a single child, painting a fill behind it.
#[derive(Debug)]
pub struct Container<W> {
    pub id: String,
    pub color: Color,
    pub child: W,
    pub layout: BlockLayout,
}

impl<W: Widget> Container<W> {
    /// Wraps `child` under a freshly generated identity, on a white fill
    /// with no padding.
    pub fn new(child: W) -> (r: Container<W>)
        ensures
            r.id@.len() == 21,
            r.color == (Color::Rgb(255, 255, 255)),
            r.child == child,
            r.layout == (BlockLayout { padding: 0 }),
    {
        Container {
            id: fresh_widget_id(),
            layout: BlockLayout::new(0),
            color: Color::Rgb(255, 255, 255),
            child,
        }
    }

    pub fn padding(self, padding: u32) -> (r: Container<W>)
        ensures
            r.id == self.id,
            r.color == self.color,
            r.child == self.child,
            r.layout == (BlockLayout { padding }),
    {
        let mut s = self;
        s.layout = BlockLayout::new(padding);
        s
    }
}

impl<W: Widget> Widget for Container<W> {
    open spec fn spec_id(&self) -> Seq<char> {
        self.id@
    }

    fn build(&self) -> (r: WidgetBody)
        ensures
            r.color == self.color,
            r.padding == self.layout.padding,
            r.children@.len() == 1,
            r.children@[0].id@ == self.child.spec_id(),
    {
        let child_body = self.child.build();
        let mut children: Vec<WidgetBody> = Vec::new();
        children.push(child_body);
        WidgetBody {
            id: self.id.clone(),
            color: self.color,
            padding: self.layout.padding,
            children,
        }
    }
}

} // verus!
