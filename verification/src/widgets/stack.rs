use vstd::prelude::*;

verus! {

/// Which way a stack lays its children out.
#[derive(Clone, Copy, Debug, PartialEq, Eq, Structural)]
pub enum StackDirection {
    Horizontal,
    Vertical,
}

/// One widget managed by a stack: the rectangle the stack positions. The
/// stack owns placement; the child's extent is its own.
#[derive(Clone, Copy, Debug, PartialEq, Eq, Structural)]
pub struct StackChild {
    pub x: i32,
    pub y: i32,
    pub width: i32,
    pub height: i32,
}

impl StackChild {
    pub fn new(width: i32, height: i32) -> (r: StackChild)
        ensures
            r == (StackChild { x: 0, y: 0, width, height }),
    {
        StackChild { x: 0, y: 0, width, height }
    }

    pub fn set_position(&mut self, x: i32, y: i32)
        ensures
            *final(self) == (StackChild { x, y, ..*old(self) }),
    {
        self.x = x;
        self.y = y;
    }
}

/// Whether a stack lays out along the x axis.
pub open spec fn spec_is_horizontal(d: StackDirection) -> bool {
    d == StackDirection::Horizontal
}

/// The main-axis offset at which a stack places its `i`-th child: the spacing
/// and extents of every child before it, summed in order.
pub open spec fn spec_offset_at(
    children: Seq<StackChild>,
    spacing: int,
    horizontal: bool,
    i: int,
) -> int
    decreases i,
{
    if i <= 0 {
        0
    } else {
        spec_offset_at(children, spacing, horizontal, i - 1) + spacing + (if horizontal {
            children[i - 1].width
        } else {
            children[i - 1].height
        })
    }
}

/// A widget that arranges its children either horizontally or vertically,
/// one after another with a fixed spacing between them.
#[derive(Clone, Debug)]
pub struct Stack {
    pub y: i32,
    pub x: i32,
    pub width: i32,
    pub height: i32,
    pub spacing: i32,
    pub direction: StackDirection,
    pub children: Vec<StackChild>,
}

impl Stack {
    pub fn set_position(&mut self, x: i32, y: i32)
        ensures
            final(self).x == x,
            final(self).y == y,
            final(self).width == old(self).width,
            final(self).height == old(self).height,
            final(self).spacing == old(self).spacing,
            final(self).direction == old(self).direction,
            final(self).children == old(self).children,
    {
        self.x = x;
        self.y = y;
    }

    pub fn size(&mut self) -> (r: [i32; 2])
        ensures
            *final(self) == *old(self),
            r[0] == old(self).width,
            r[1] == old(self).height,
    {
        [self.width, self.height]
    }

    /// The placement step of rendering: walk the children in order, keeping a
    /// running offset along the stacking axis, and put each child at the
    /// offset reached before it, with the cross coordinate cleared to zero.
    /// Drawing itself is the embedder's concern and happens elsewhere.
    pub fn arrange(&mut self)
        requires
            forall|i: int|
                0 <= i <= old(self).children@.len() ==> i32::MIN <= #[trigger] spec_offset_at(
                    old(self).children@,
                    old(self).spacing as int,
                    spec_is_horizontal(old(self).direction),
                    i,
                ) <= i32::MAX,
            forall|i: int|
                0 <= i < old(self).children@.len() ==> i32::MIN <= old(self).spacing + (
                if spec_is_horizontal(old(self).direction) {
                    (#[trigger] old(self).children@[i]).width
                } else {
                    old(self).children@[i].height
                }) <= i32::MAX,
        ensures
            final(self).x == old(self).x,
            final(self).y == old(self).y,
            final(self).width == old(self).width,
            final(self).height == old(self).height,
            final(self).spacing == old(self).spacing,
            final(self).direction == old(self).direction,
            final(self).children@.len() == old(self).children@.len(),
            forall|i: int|
                0 <= i < old(self).children@.len() ==> (#[trigger] final(self).children@[i])
                    == (StackChild {
                    x: if spec_is_horizontal(old(self).direction) {
                        spec_offset_at(
                            old(self).children@,
                            old(self).spacing as int,
                            true,
                            i,
                        ) as i32
                    } else {
                        0
                    },
                    y: if spec_is_horizontal(old(self).direction) {
                        0
                    } else {
                        spec_offset_at(
                            old(self).children@,
                            old(self).spacing as int,
                            false,
                            i,
                        ) as i32
                    },
                    ..old(self).children@[i]
                }),
    {
        let ghost children0 = self.children@;
        let ghost horizontal = spec_is_horizontal(self.direction);
        let mut offset: i32 = 0;
        let mut i: usize = 0;
        while i < self.children.len()
            invariant
                i <= children0.len(),
                self.x == old(self).x,
                self.y == old(self).y,
                self.width == old(self).width,
                self.height == old(self).height,
                self.spacing == old(self).spacing,
                self.direction == old(self).direction,
                horizontal == spec_is_horizontal(self.direction),
                self.children@.len() == children0.len(),
                offset == spec_offset_at(children0, self.spacing as int, horizontal, i as int),
                forall|k: int|
                    0 <= k <= children0.len() ==> i32::MIN <= #[trigger] spec_offset_at(
                        children0,
                        old(self).spacing as int,
                        horizontal,
                        k,
                    ) <= i32::MAX,
                forall|k: int|
                    0 <= k < children0.len() ==> i32::MIN <= old(self).spacing + (
                    if horizontal {
                        (#[trigger] children0[k]).width
                    } else {
                        children0[k].height
                    }) <= i32::MAX,
                forall|k: int| i <= k < children0.len() ==> self.children@[k] == children0[k],
                forall|k: int|
                    0 <= k < i ==> (#[trigger] self.children@[k]) == (StackChild {
                        x: if horizontal {
                            spec_offset_at(children0, old(self).spacing as int, true, k) as i32
                        } else {
                            0
                        },
                        y: if horizontal {
                            0
                        } else {
                            spec_offset_at(children0, old(self).spacing as int, false, k) as i32
                        },
                        ..children0[k]
                    }),
            decreases children0.len() - i,
        {
            let position = offset;
            match self.direction {
                StackDirection::Horizontal => {
                    let w = self.children[i].width;
                    proof {
                        assert(children0[i as int].width == w);
                        assert(i32::MIN <= old(self).spacing + children0[i as int].width
                            <= i32::MAX);
                        assert(i32::MIN <= spec_offset_at(
                            children0,
                            old(self).spacing as int,
                            horizontal,
                            i as int + 1,
                        ) <= i32::MAX);
                    }
                    offset = offset + (self.spacing + w);
                    self.children[i].set_position(position, 0);
                },
                StackDirection::Vertical => {
                    let h = self.children[i].height;
                    proof {
                        assert(children0[i as int].height == h);
                        assert(i32::MIN <= old(self).spacing + children0[i as int].height
                            <= i32::MAX);
                        assert(i32::MIN <= spec_offset_at(
                            children0,
                            old(self).spacing as int,
                            horizontal,
                            i as int + 1,
                        ) <= i32::MAX);
                    }
                    offset = offset + (self.spacing + h);
                    self.children[i].set_position(0, position);
                },
            }
            i += 1;
        }
    }
}

} // verus!
