use vstd::prelude::*;

use crate::colors::Rgba;
use crate::geometry::Position;
use crate::geometry::Size;

verus! {

/// A stable, comparable token naming one widget instance across frames.
#[derive(Clone, Copy, Debug, PartialEq, Eq, Structural, Hash)]
pub struct GlobalId(pub u64);

impl Default for GlobalId {
    fn default() -> (r: GlobalId)
        ensures
            r == (GlobalId(0)),
    {
        GlobalId(0)
    }
}

/// How children sit along an axis of their container.
#[derive(Clone, Copy, Debug, PartialEq, Eq, Structural)]
pub enum AxisAlignment {
    Start,
    Center,
    End,
}

/// The parameters a horizontal layout pass reads from its container.
#[derive(Clone, Copy, Debug, PartialEq, Eq, Structural)]
pub struct HorizontalLayout {
    pub spacing: u32,
    pub padding: u32,
    pub main_axis_alignment: AxisAlignment,
    pub cross_axis_alignment: AxisAlignment,
}

impl HorizontalLayout {
    pub fn new() -> (r: HorizontalLayout)
        ensures
            r == (HorizontalLayout {
                spacing: 0,
                padding: 0,
                main_axis_alignment: AxisAlignment::Start,
                cross_axis_alignment: AxisAlignment::Start,
            }),
    {
        HorizontalLayout {
            spacing: 0,
            padding: 0,
            main_axis_alignment: AxisAlignment::Start,
            cross_axis_alignment: AxisAlignment::Start,
        }
    }
}

/// A plain rectangle of a given size, the simplest leaf widget.
#[derive(Clone, Debug)]
pub struct Rect {
    pub id: GlobalId,
    pub width: u32,
    pub height: u32,
    pub color: Rgba,
}

impl Rect {
    pub fn new(width: u32, height: u32) -> (r: Rect)
        ensures
            r.id == (GlobalId(0)),
            r.width == width,
            r.height == height,
            r.color == (Rgba { r: 0, g: 0, b: 0, a: 0 }),
    {
        Rect { id: GlobalId::default(), width, height, color: Rgba::transparent() }
    }
}

/// A piece of text; its size is measured during the layout pass, so it
/// reports no intrinsic geometry here.
#[derive(Clone, Debug)]
pub struct Text {
    pub id: GlobalId,
    pub content: String,
}

impl Text {
    pub fn new(content: &str) -> (r: Text)
        ensures
            r.id == (GlobalId(0)),
            r.content@ == content@,
    {
        Text { id: GlobalId::default(), content: content.to_owned() }
    }
}

/// One widget of the tree, as a stack can hold it.
#[derive(Clone, Debug)]
pub enum Widget {
    Rect(Rect),
    Text(Text),
}

/// The layout description a widget hands the layout pass.
#[derive(Debug)]
pub enum WidgetLayout {
    Horizontal {
        id: GlobalId,
        spacing: u32,
        padding: u32,
        main_axis_alignment: AxisAlignment,
        cross_axis_alignment: AxisAlignment,
        children: Vec<WidgetLayout>,
    },
    Leaf { id: GlobalId, width: u32, height: u32 },
}

/// The layout node each kind of widget contributes.
pub open spec fn spec_widget_layout(w: Widget) -> WidgetLayout {
    match w {
        Widget::Rect(r) => WidgetLayout::Leaf { id: r.id, width: r.width, height: r.height },
        Widget::Text(t) => WidgetLayout::Leaf { id: t.id, width: 0, height: 0 },
    }
}

impl Widget {
    pub fn id(&self) -> (r: GlobalId)
        ensures
            r == self.spec_widget_id(),
    {
        match self {
            Widget::Rect(rect) => rect.id,
            Widget::Text(text) => text.id,
        }
    }

    pub open spec fn spec_widget_id(&self) -> GlobalId {
        match self {
            Widget::Rect(rect) => rect.id,
            Widget::Text(text) => text.id,
        }
    }

    pub fn layout(&self) -> (r: WidgetLayout)
        ensures
            r == spec_widget_layout(*self),
    {
        match self {
            Widget::Rect(rect) => WidgetLayout::Leaf {
                id: rect.id,
                width: rect.width,
                height: rect.height,
            },
            Widget::Text(text) => WidgetLayout::Leaf { id: text.id, width: 0, height: 0 },
        }
    }
}

/// The primitive view a container paints behind its children: a filled
/// rectangle carrying the container's identity.
#[derive(Clone, Copy, Debug, PartialEq, Eq, Structural)]
pub struct RectView {
    pub id: GlobalId,
    pub color: Rgba,
    pub position: Position,
    pub size: Size,
}

/// What a view exposes of itself to the renderer's bookkeeping.
pub trait WidgetView: Sized {
    spec fn spec_id(&self) -> GlobalId;

    spec fn spec_color(&self) -> Rgba;

    /// Get the view's id.
    fn id(&self) -> (r: GlobalId)
        ensures
            r == self.spec_id(),
    ;

    /// Get the view's color.
    fn color(&self) -> (r: Rgba)
        ensures
            r == self.spec_color(),
    ;

    fn set_id(&mut self, id: GlobalId)
        ensures
            final(self).spec_id() == id,
            final(self).spec_color() == old(self).spec_color(),
    ;

    fn set_size(&mut self, size: Size)
        ensures
            final(self).spec_id() == old(self).spec_id(),
            final(self).spec_color() == old(self).spec_color(),
    ;

    fn set_position(&mut self, position: Position)
        ensures
            final(self).spec_id() == old(self).spec_id(),
            final(self).spec_color() == old(self).spec_color(),
    ;
}

impl RectView {
    pub fn new(color: Rgba) -> (r: RectView)
        ensures
            r == (RectView {
                id: GlobalId(0),
                color,
                position: (Position { x: 0, y: 0 }),
                size: (Size { width: 0, height: 0 }),
            }),
    {
        RectView {
            id: GlobalId::default(),
            color,
            position: Position::new(0, 0),
            size: Size::new(0, 0),
        }
    }
}

impl WidgetView for RectView {
    open spec fn spec_id(&self) -> GlobalId {
        self.id
    }

    open spec fn spec_color(&self) -> Rgba {
        self.color
    }

    fn id(&self) -> (r: GlobalId) {
        self.id
    }

    fn color(&self) -> (r: Rgba) {
        self.color
    }

    fn set_id(&mut self, id: GlobalId) {
        self.id = id;
    }

    fn set_size(&mut self, size: Size) {
        self.size = size;
    }

    fn set_position(&mut self, position: Position) {
        self.position = position;
    }
}

/// A horizontal stack of widgets, placed one after another.
#[derive(Clone, Debug)]
pub struct HStack {
    pub id: GlobalId,
    pub children: Vec<Widget>,
    pub color: Rgba,
    pub corner_radius: u32,
    pub layout: HorizontalLayout,
}

impl HStack {
    pub fn new() -> (r: HStack)
        ensures
            r.id == (GlobalId(0)),
            r.children@ == Seq::<Widget>::empty(),
            r.color == (Rgba { r: 0, g: 0, b: 0, a: 0 }),
            r.corner_radius == 0,
            r.layout == (HorizontalLayout {
                spacing: 0,
                padding: 0,
                main_axis_alignment: AxisAlignment::Start,
                cross_axis_alignment: AxisAlignment::Start,
            }),
    {
        HStack {
            id: GlobalId::default(),
            color: Rgba::transparent(),
            children: Vec::new(),
            corner_radius: 0,
            layout: HorizontalLayout::new(),
        }
    }

    pub fn corner_radius(self, corner_radius: u32) -> (r: HStack)
        ensures
            r == (HStack { corner_radius, ..self }),
    {
        let mut s = self;
        s.corner_radius = corner_radius;
        s
    }

    pub fn get(&self, index: usize) -> (r: Option<&Widget>)
        ensures
            match r {
                Some(w) => index < self.children@.len() && *w == self.children@[index as int],
                None => index >= self.children@.len(),
            },
    {
        if index < self.children.len() {
            Some(&self.children[index])
        } else {
            None
        }
    }

    pub fn add_child(self, widget: Widget) -> (r: HStack)
        ensures
            r.children@ == self.children@.push(widget),
            r.id == self.id,
            r.color == self.color,
            r.corner_radius == self.corner_radius,
            r.layout == self.layout,
    {
        let mut s = self;
        s.children.push(widget);
        s
    }

    pub fn padding(self, padding: u32) -> (r: HStack)
        ensures
            r == (HStack { layout: (HorizontalLayout { padding, ..self.layout }), ..self }),
    {
        let mut s = self;
        s.layout.padding = padding;
        s
    }

    pub fn spacing(self, spacing: u32) -> (r: HStack)
        ensures
            r == (HStack { layout: (HorizontalLayout { spacing, ..self.layout }), ..self }),
    {
        let mut s = self;
        s.layout.spacing = spacing;
        s
    }

    pub fn align_center(self) -> (r: HStack)
        ensures
            r == (HStack {
                layout: (HorizontalLayout {
                    main_axis_alignment: AxisAlignment::Center,
                    cross_axis_alignment: AxisAlignment::Center,
                    ..self.layout
                }),
                ..self
            }),
    {
        let mut s = self;
        s.layout.main_axis_alignment = AxisAlignment::Center;
        s.layout.cross_axis_alignment = AxisAlignment::Center;
        s
    }

    pub fn main_axis_alignment(self, alignment: AxisAlignment) -> (r: HStack)
        ensures
            r == (HStack {
                layout: (HorizontalLayout { main_axis_alignment: alignment, ..self.layout }),
                ..self
            }),
    {
        let mut s = self;
        s.layout.main_axis_alignment = alignment;
        s
    }

    pub fn cross_axis_alignment(self, alignment: AxisAlignment) -> (r: HStack)
        ensures
            r == (HStack {
                layout: (HorizontalLayout { cross_axis_alignment: alignment, ..self.layout }),
                ..self
            }),
    {
        let mut s = self;
        s.layout.cross_axis_alignment = alignment;
        s
    }

    pub fn id(&self) -> (r: GlobalId)
        ensures
            r == self.id,
    {
        self.id
    }

    /// The view painted for the stack itself: a rectangle in the stack's
    /// color, carrying the stack's identity.
    pub fn view(&self) -> (r: RectView)
        ensures
            r.id == self.id,
            r.color == self.color,
    {
        let mut view = RectView::new(self.color);
        view.set_id(self.id);
        view
    }

    /// The layout tree for the stack: its own parameters, with one child
    /// layout per child widget, in order.
    pub fn layout(&self) -> (r: WidgetLayout)
        ensures
            r matches WidgetLayout::Horizontal {
                id,
                spacing,
                padding,
                main_axis_alignment,
                cross_axis_alignment,
                children,
            } && id == self.id && spacing == self.layout.spacing && padding == self.layout.padding
                && main_axis_alignment == self.layout.main_axis_alignment
                && cross_axis_alignment == self.layout.cross_axis_alignment && children@.len()
                == self.children@.len() && forall|i: int|
                0 <= i < self.children@.len() ==> (#[trigger] children@[i]) == spec_widget_layout(
                    self.children@[i],
                ),
    {
        let mut children_layout: Vec<WidgetLayout> = Vec::new();
        let mut i: usize = 0;
        while i < self.children.len()
            invariant
                i <= self.children@.len(),
                children_layout@.len() == i,
                forall|k: int|
                    0 <= k < i ==> (#[trigger] children_layout@[k]) == spec_widget_layout(
                        self.children@[k],
                    ),
            decreases self.children@.len() - i,
        {
            children_layout.push(self.children[i].layout());
            i += 1;
        }
        WidgetLayout::Horizontal {
            id: self.id,
            spacing: self.layout.spacing,
            padding: self.layout.padding,
            main_axis_alignment: self.layout.main_axis_alignment,
            cross_axis_alignment: self.layout.cross_axis_alignment,
            children: children_layout,
        }
    }

    /// The stack's children, in declaration order.
    pub fn children(&self) -> (r: &Vec<Widget>)
        ensures
            r == self.children,
    {
        &self.children
    }
}

} // verus!
