use vstd::prelude::*;

use crate::geometry::Bounds;
use crate::geometry::Position;
use crate::geometry::Size;

verus! {

/// One widget's geometry in the current layout snapshot: a stable identity
/// together with the screen-space rectangle the layout pass assigned to it.
/// The event manager consumes a snapshot as a flattened sequence of these
/// nodes; the traversal order of the producing tree is irrelevant to it.
#[derive(Clone, Debug)]
pub struct LayoutNode {
    pub id: String,
    pub position: Position,
    pub size: Size,
}

/// The hit test: the pointer lies within the node's rectangle, both closed
/// intervals, so edges and corners count as inside.
pub open spec fn spec_node_contains(node: LayoutNode, p: Position) -> bool {
    &&& node.position.x <= p.x <= node.position.x + node.size.width
    &&& node.position.y <= p.y <= node.position.y + node.size.height
}

impl LayoutNode {
    pub fn new(id: &str, position: Position, size: Size) -> (r: LayoutNode)
        ensures
            r.id@ == id@,
            r.position == position,
            r.size == size,
    {
        LayoutNode { id: id.to_owned(), position, size }
    }

    /// The rectangle this node spans, derived from its origin and size.
    pub fn bounds(&self) -> (r: Bounds)
        ensures
            forall|p: Position| crate::geometry::spec_within(r, p) == spec_node_contains(
                *self,
                p,
            ),
    {
        Bounds::new(self.position, self.size)
    }
}

} // verus!
