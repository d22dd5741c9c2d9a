use helium::colors::Color;
use helium::colors::Rgba;
use helium::widgets::container::Container;
use helium::widgets::container::Widget as ContainerWidget;
use helium::widgets::hstack::AxisAlignment;
use helium::widgets::hstack::HStack;
use helium::widgets::hstack::Rect;
use helium::widgets::hstack::Widget;
use helium::widgets::hstack::WidgetLayout;
use helium::widgets::hstack::WidgetView;
use helium::widgets::stack::Stack;
use helium::widgets::stack::StackChild;
use helium::widgets::stack::StackDirection;
use helium::widgets::text_field::TextField;

#[test]
fn hstack_expansion() {
    let hstack = HStack::new()
        .add_child(Widget::Rect(Rect::new(200, 100)))
        .add_child(Widget::Rect(Rect::new(200, 100)));

    assert_eq!(hstack.children.len(), 2);
}

#[test]
fn empty_hstack_expansion() {
    let hstack = HStack::new();
    assert!(hstack.children.is_empty());
}

#[test]
fn get_children() {
    let widget = HStack::new()
        .add_child(Widget::Rect(Rect::new(100, 100)))
        .add_child(Widget::Rect(Rect::new(0, 0)));

    let id1 = widget.children()[0].id();
    let id2 = widget.children()[1].id();

    let children = widget.children();

    assert_eq!(children[0].id(), id1);
    assert_eq!(children[1].id(), id2);
}

#[test]
fn get_view() {
    let hstack = HStack::new();
    let view = hstack.view();
    assert_eq!(view.color(), hstack.color);
    assert_eq!(view.id(), hstack.id);
}

#[test]
fn hstack_builders_set_layout() {
    let hstack = HStack::new().spacing(12).padding(24).align_center().corner_radius(3);
    assert_eq!(hstack.layout.spacing, 12);
    assert_eq!(hstack.layout.padding, 24);
    assert_eq!(hstack.layout.main_axis_alignment, AxisAlignment::Center);
    assert_eq!(hstack.layout.cross_axis_alignment, AxisAlignment::Center);
    assert_eq!(hstack.corner_radius, 3);
}

#[test]
fn hstack_layout_tree() {
    let hstack = HStack::new().spacing(7).add_child(Widget::Rect(Rect::new(30, 40)));
    match hstack.layout() {
        WidgetLayout::Horizontal { id, spacing, children, .. } => {
            assert_eq!(id, hstack.id);
            assert_eq!(spacing, 7);
            assert_eq!(children.len(), 1);
            match &children[0] {
                WidgetLayout::Leaf { width, height, .. } => {
                    assert_eq!(*width, 30);
                    assert_eq!(*height, 40);
                },
                _ => panic!("child layout should be a leaf"),
            }
        },
        _ => panic!("an hstack lays out horizontally"),
    }
}

#[test]
fn hstack_get_is_bounds_checked() {
    let hstack = HStack::new().add_child(Widget::Rect(Rect::new(1, 2)));
    assert!(hstack.get(0).is_some());
    assert!(hstack.get(1).is_none());
}

#[test]
fn stack_arranges_horizontally() {
    let mut stack = Stack {
        x: 0,
        y: 0,
        width: 100,
        height: 50,
        spacing: 5,
        direction: StackDirection::Horizontal,
        children: vec![StackChild::new(10, 20), StackChild::new(30, 40), StackChild::new(1, 1)],
    };
    stack.arrange();
    // Offsets: 0, then 0 + 5 + 10 = 15, then 15 + 5 + 30 = 50.
    assert_eq!((stack.children[0].x, stack.children[0].y), (0, 0));
    assert_eq!((stack.children[1].x, stack.children[1].y), (15, 0));
    assert_eq!((stack.children[2].x, stack.children[2].y), (50, 0));
}

#[test]
fn stack_arranges_vertically() {
    let mut stack = Stack {
        x: 0,
        y: 0,
        width: 100,
        height: 50,
        spacing: 5,
        direction: StackDirection::Vertical,
        children: vec![StackChild::new(10, 20), StackChild::new(30, 40)],
    };
    stack.arrange();
    // Offsets: 0, then 0 + 5 + 20 = 25; extents are untouched.
    assert_eq!((stack.children[0].x, stack.children[0].y), (0, 0));
    assert_eq!((stack.children[1].x, stack.children[1].y), (0, 25));
    assert_eq!(stack.children[1].width, 30);
    assert_eq!(stack.children[1].height, 40);
}

#[test]
fn stack_position_and_size() {
    let mut stack = Stack {
        x: 0,
        y: 0,
        width: 100,
        height: 50,
        spacing: 0,
        direction: StackDirection::Horizontal,
        children: vec![],
    };
    stack.set_position(7, 9);
    assert_eq!((stack.x, stack.y), (7, 9));
    assert_eq!(stack.size(), [100, 50]);
}

#[test]
fn rect_defaults_to_transparent() {
    let rect = Rect::new(4, 5);
    assert_eq!(rect.color, Rgba { r: 0, g: 0, b: 0, a: 0 });
    assert_eq!(rect.width, 4);
    assert_eq!(rect.height, 5);
}

#[test]
fn container_wraps_child_body() {
    let field = TextField::new();
    let field_id = field.id.clone();
    let container = Container::new(field).padding(6);
    assert_eq!(container.id.len(), 21);
    assert_eq!(container.color, Color::Rgb(255, 255, 255));
    assert_eq!(container.layout.padding, 6);

    let body = container.build();
    assert_eq!(body.padding, 6);
    assert_eq!(body.children.len(), 1);
    assert_eq!(body.children[0].id, field_id);
}
