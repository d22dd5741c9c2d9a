//! The guarantees the event dispatcher gives, stated and proved over the
//! dispatch model of [`crate::events`]: which state a widget ends a pass in,
//! and that callbacks fire exactly once per transition edge — never twice,
//! never for a widget the transition did not happen to.
//!
//! The registry-level laws assume what a well-formed layout snapshot
//! guarantees: every node's identity is tracked by an element
//! ([`spec_covers`]) and no two nodes share an identity
//! ([`spec_distinct_ids`]).

use vstd::prelude::*;

use crate::events::Element;
use crate::events::ElementState;
use crate::events::EventFn;
use crate::events::lemma_find_index;
use crate::events::lemma_mouse_pass_preserves_ids;
use crate::events::lemma_moved_pass_preserves_ids;
use crate::events::spec_click_firings;
use crate::events::spec_click_fires;
use crate::events::spec_click_matches;
use crate::events::spec_covers;
use crate::events::spec_find_index;
use crate::events::spec_has_id;
use crate::events::spec_hover_firings;
use crate::events::spec_hover_fires;
use crate::events::spec_hover_matches;
use crate::events::spec_hover_step;
use crate::events::spec_mouse_node_firings;
use crate::events::spec_mouse_pass;
use crate::events::spec_mouse_pass_firings;
use crate::events::spec_mouse_step;
use crate::events::spec_moved_node_firings;
use crate::events::spec_moved_pass;
use crate::events::spec_moved_pass_firings;
use crate::geometry::Position;
use crate::layout::LayoutNode;
use crate::layout::spec_node_contains;

verus! {

/// No two nodes of the snapshot carry the same identity.
pub open spec fn spec_distinct_ids(nodes: Seq<LayoutNode>) -> bool {
    forall|a: int, b: int|
        0 <= a < nodes.len() && 0 <= b < nodes.len() && a != b ==> (#[trigger] nodes[a].id@) != (
        #[trigger] nodes[b].id@)
}

/// How many times callback index `c` occurs in a firing list.
pub open spec fn spec_fire_count(fired: Seq<usize>, c: usize) -> nat
    decreases fired.len(),
{
    if fired.len() == 0 {
        0
    } else {
        spec_fire_count(fired.drop_last(), c) + if fired.last() == c {
            1nat
        } else {
            0nat
        }
    }
}

proof fn lemma_fire_count_concat(a: Seq<usize>, b: Seq<usize>, c: usize)
    ensures
        spec_fire_count(a + b, c) == spec_fire_count(a, c) + spec_fire_count(b, c),
    decreases b.len(),
{
    if b.len() == 0 {
        assert(a + b =~= a);
    } else {
        assert((a + b).drop_last() =~= a + b.drop_last());
        assert((a + b).last() == b.last());
        lemma_fire_count_concat(a, b.drop_last(), c);
    }
}

/// The hover firing list for one identity holds each matching callback index
/// exactly once, and nothing else.
proof fn lemma_hover_firings_count(cbs: Seq<EventFn>, id: Seq<char>, c: usize)
    requires
        cbs.len() <= usize::MAX,
    ensures
        spec_fire_count(spec_hover_firings(cbs, id), c) == if c < cbs.len()
            && spec_hover_matches(cbs[c as int], id) {
            1nat
        } else {
            0nat
        },
    decreases cbs.len(),
{
    if cbs.len() == 0 {
    } else {
        let front = cbs.drop_last();
        assert(forall|m: int| 0 <= m < front.len() ==> #[trigger] front[m] == cbs[m]);
        lemma_hover_firings_count(front, id, c);
        let rest = spec_hover_firings(front, id);
        if spec_hover_matches(cbs.last(), id) {
            let x = (cbs.len() - 1) as usize;
            assert(rest.push(x).drop_last() =~= rest);
            assert(rest.push(x).last() == x);
        }
    }
}

/// The click counterpart of `lemma_hover_firings_count`.
proof fn lemma_click_firings_count(cbs: Seq<EventFn>, id: Seq<char>, c: usize)
    requires
        cbs.len() <= usize::MAX,
    ensures
        spec_fire_count(spec_click_firings(cbs, id), c) == if c < cbs.len()
            && spec_click_matches(cbs[c as int], id) {
            1nat
        } else {
            0nat
        },
    decreases cbs.len(),
{
    if cbs.len() == 0 {
    } else {
        let front = cbs.drop_last();
        assert(forall|m: int| 0 <= m < front.len() ==> #[trigger] front[m] == cbs[m]);
        lemma_click_firings_count(front, id, c);
        let rest = spec_click_firings(front, id);
        if spec_click_matches(cbs.last(), id) {
            let x = (cbs.len() - 1) as usize;
            assert(rest.push(x).drop_last() =~= rest);
            assert(rest.push(x).last() == x);
        }
    }
}

/// The entries of a firing list that are hover callbacks of `id`, in firing
/// order.
pub open spec fn spec_hover_firings_for(
    fired: Seq<usize>,
    cbs: Seq<EventFn>,
    id: Seq<char>,
) -> Seq<usize>
    decreases fired.len(),
{
    if fired.len() == 0 {
        Seq::empty()
    } else {
        let front = spec_hover_firings_for(fired.drop_last(), cbs, id);
        if spec_hover_matches(cbs[fired.last() as int], id) {
            front.push(fired.last())
        } else {
            front
        }
    }
}

/// The entries of a firing list that are click callbacks of `id`, in firing
/// order.
pub open spec fn spec_click_firings_for(
    fired: Seq<usize>,
    cbs: Seq<EventFn>,
    id: Seq<char>,
) -> Seq<usize>
    decreases fired.len(),
{
    if fired.len() == 0 {
        Seq::empty()
    } else {
        let front = spec_click_firings_for(fired.drop_last(), cbs, id);
        if spec_click_matches(cbs[fired.last() as int], id) {
            front.push(fired.last())
        } else {
            front
        }
    }
}

proof fn lemma_hover_firings_for_concat(a: Seq<usize>, b: Seq<usize>, cbs: Seq<EventFn>, id: Seq<char>)
    ensures
        spec_hover_firings_for(a + b, cbs, id) == spec_hover_firings_for(a, cbs, id)
            + spec_hover_firings_for(b, cbs, id),
    decreases b.len(),
{
    if b.len() == 0 {
        assert(a + b =~= a);
        assert(spec_hover_firings_for(a, cbs, id) + spec_hover_firings_for(b, cbs, id)
            =~= spec_hover_firings_for(a, cbs, id));
    } else {
        assert((a + b).drop_last() =~= a + b.drop_last());
        assert((a + b).last() == b.last());
        lemma_hover_firings_for_concat(a, b.drop_last(), cbs, id);
        if spec_hover_matches(cbs[b.last() as int], id) {
            assert(spec_hover_firings_for(a, cbs, id) + spec_hover_firings_for(b, cbs, id)
                =~= (spec_hover_firings_for(a, cbs, id) + spec_hover_firings_for(
                b.drop_last(),
                cbs,
                id,
            )).push(b.last()));
        }
    }
}

proof fn lemma_click_firings_for_concat(a: Seq<usize>, b: Seq<usize>, cbs: Seq<EventFn>, id: Seq<char>)
    ensures
        spec_click_firings_for(a + b, cbs, id) == spec_click_firings_for(a, cbs, id)
            + spec_click_firings_for(b, cbs, id),
    decreases b.len(),
{
    if b.len() == 0 {
        assert(a + b =~= a);
        assert(spec_click_firings_for(a, cbs, id) + spec_click_firings_for(b, cbs, id)
            =~= spec_click_firings_for(a, cbs, id));
    } else {
        assert((a + b).drop_last() =~= a + b.drop_last());
        assert((a + b).last() == b.last());
        lemma_click_firings_for_concat(a, b.drop_last(), cbs, id);
        if spec_click_matches(cbs[b.last() as int], id) {
            assert(spec_click_firings_for(a, cbs, id) + spec_click_firings_for(b, cbs, id)
                =~= (spec_click_firings_for(a, cbs, id) + spec_click_firings_for(
                b.drop_last(),
                cbs,
                id,
            )).push(b.last()));
        }
    }
}

/// A firing list none of whose entries are hover callbacks of `id` projects
/// to nothing; one all of whose entries are projects to itself. Click
/// counterparts below.
proof fn lemma_hover_firings_for_extremes(fired: Seq<usize>, cbs: Seq<EventFn>, id: Seq<char>)
    ensures
        (forall|p: int|
            0 <= p < fired.len() ==> !spec_hover_matches(cbs[(#[trigger] fired[p]) as int], id))
            ==> spec_hover_firings_for(fired, cbs, id) == Seq::<usize>::empty(),
        (forall|p: int|
            0 <= p < fired.len() ==> spec_hover_matches(cbs[(#[trigger] fired[p]) as int], id))
            ==> spec_hover_firings_for(fired, cbs, id) == fired,
    decreases fired.len(),
{
    if fired.len() == 0 {
        assert(spec_hover_firings_for(fired, cbs, id) =~= Seq::<usize>::empty());
        assert(fired =~= Seq::<usize>::empty());
    } else {
        let front = fired.drop_last();
        assert(forall|p: int| 0 <= p < front.len() ==> #[trigger] front[p] == fired[p]);
        lemma_hover_firings_for_extremes(front, cbs, id);
        assert(front.push(fired.last()) =~= fired);
    }
}

proof fn lemma_click_firings_for_extremes(fired: Seq<usize>, cbs: Seq<EventFn>, id: Seq<char>)
    ensures
        (forall|p: int|
            0 <= p < fired.len() ==> !spec_click_matches(cbs[(#[trigger] fired[p]) as int], id))
            ==> spec_click_firings_for(fired, cbs, id) == Seq::<usize>::empty(),
        (forall|p: int|
            0 <= p < fired.len() ==> spec_click_matches(cbs[(#[trigger] fired[p]) as int], id))
            ==> spec_click_firings_for(fired, cbs, id) == fired,
    decreases fired.len(),
{
    if fired.len() == 0 {
        assert(spec_click_firings_for(fired, cbs, id) =~= Seq::<usize>::empty());
        assert(fired =~= Seq::<usize>::empty());
    } else {
        let front = fired.drop_last();
        assert(forall|p: int| 0 <= p < front.len() ==> #[trigger] front[p] == fired[p]);
        lemma_click_firings_for_extremes(front, cbs, id);
        assert(front.push(fired.last()) =~= fired);
    }
}

/// Every entry of a hover firing list is in range and is a hover callback of
/// the identity it was built for.
proof fn lemma_hover_firings_elements(cbs: Seq<EventFn>, id: Seq<char>)
    requires
        cbs.len() <= usize::MAX,
    ensures
        forall|p: int|
            0 <= p < spec_hover_firings(cbs, id).len() ==> (#[trigger] spec_hover_firings(
                cbs,
                id,
            )[p]) < cbs.len() && spec_hover_matches(
                cbs[spec_hover_firings(cbs, id)[p] as int],
                id,
            ),
    decreases cbs.len(),
{
    if cbs.len() == 0 {
    } else {
        let front = cbs.drop_last();
        assert(forall|m: int| 0 <= m < front.len() ==> #[trigger] front[m] == cbs[m]);
        lemma_hover_firings_elements(front, id);
        let rest = spec_hover_firings(front, id);
        assert forall|p: int|
            0 <= p < spec_hover_firings(cbs, id).len() implies (#[trigger] spec_hover_firings(
            cbs,
            id,
        )[p]) < cbs.len() && spec_hover_matches(cbs[spec_hover_firings(cbs, id)[p] as int], id) by {
            let full = spec_hover_firings(cbs, id);
            if spec_hover_matches(cbs.last(), id) {
                let x = (cbs.len() - 1) as usize;
                assert(full == rest.push(x));
                if p < rest.len() {
                    assert(full[p] == rest[p]);
                    assert(rest[p] < front.len());
                    assert(front[rest[p] as int] == cbs[rest[p] as int]);
                } else {
                    assert(full[p] == x);
                }
            } else {
                assert(full == rest);
                assert(rest[p] < front.len());
                assert(front[rest[p] as int] == cbs[rest[p] as int]);
            }
        }
    }
}

/// The click counterpart of `lemma_hover_firings_elements`.
proof fn lemma_click_firings_elements(cbs: Seq<EventFn>, id: Seq<char>)
    requires
        cbs.len() <= usize::MAX,
    ensures
        forall|p: int|
            0 <= p < spec_click_firings(cbs, id).len() ==> (#[trigger] spec_click_firings(
                cbs,
                id,
            )[p]) < cbs.len() && spec_click_matches(
                cbs[spec_click_firings(cbs, id)[p] as int],
                id,
            ),
    decreases cbs.len(),
{
    if cbs.len() == 0 {
    } else {
        let front = cbs.drop_last();
        assert(forall|m: int| 0 <= m < front.len() ==> #[trigger] front[m] == cbs[m]);
        lemma_click_firings_elements(front, id);
        let rest = spec_click_firings(front, id);
        assert forall|p: int|
            0 <= p < spec_click_firings(cbs, id).len() implies (#[trigger] spec_click_firings(
            cbs,
            id,
        )[p]) < cbs.len() && spec_click_matches(cbs[spec_click_firings(cbs, id)[p] as int], id) by {
            let full = spec_click_firings(cbs, id);
            if spec_click_matches(cbs.last(), id) {
                let x = (cbs.len() - 1) as usize;
                assert(full == rest.push(x));
                if p < rest.len() {
                    assert(full[p] == rest[p]);
                    assert(rest[p] < front.len());
                    assert(front[rest[p] as int] == cbs[rest[p] as int]);
                } else {
                    assert(full[p] == x);
                }
            } else {
                assert(full == rest);
                assert(rest[p] < front.len());
                assert(front[rest[p] as int] == cbs[rest[p] as int]);
            }
        }
    }
}

/// A callback registration listens on one identity: it cannot match two.
proof fn lemma_match_is_exclusive(cb: EventFn, x: Seq<char>, y: Seq<char>)
    ensures
        spec_hover_matches(cb, x) && spec_hover_matches(cb, y) ==> x == y,
        spec_click_matches(cb, x) && spec_click_matches(cb, y) ==> x == y,
        spec_hover_matches(cb, x) ==> !spec_click_matches(cb, x),
        spec_hover_matches(cb, x) ==> cb.spec_id() == x,
        spec_click_matches(cb, x) ==> cb.spec_id() == x,
{
}

/// Two registries with the same identities in the same order agree on where
/// any identity is first found.
proof fn lemma_find_index_same_ids(s1: Seq<Element>, s2: Seq<Element>, id: Seq<char>)
    requires
        s1.len() == s2.len(),
        forall|k: int| 0 <= k < s1.len() ==> (#[trigger] s1[k].id@) == s2[k].id@,
    ensures
        spec_find_index(s1, id) == spec_find_index(s2, id),
    decreases s1.len(),
{
    if s1.len() == 0 {
    } else if s1[0].id@ == id {
        assert(s2[0].id@ == id);
    } else {
        let d1 = s1.drop_first();
        let d2 = s2.drop_first();
        assert(forall|k: int| 0 <= k < d1.len() ==> #[trigger] d1[k] == s1[k + 1]);
        assert(forall|k: int| 0 <= k < d2.len() ==> #[trigger] d2[k] == s2[k + 1]);
        assert(forall|k: int| 0 <= k < d1.len() ==> (#[trigger] d1[k].id@) == d2[k].id@);
        lemma_find_index_same_ids(d1, d2, id);
    }
}

/// A pointer-move pass keeps covering the snapshot's identities.
pub proof fn lemma_covers_after_moved(elems: Seq<Element>, nodes: Seq<LayoutNode>, pointer: Position)
    requires
        spec_covers(elems, nodes),
    ensures
        spec_covers(spec_moved_pass(elems, nodes, pointer), nodes),
{
    lemma_moved_pass_preserves_ids(elems, nodes, pointer);
    let after = spec_moved_pass(elems, nodes, pointer);
    assert forall|i: int| 0 <= i < nodes.len() implies spec_has_id(
        after,
        #[trigger] nodes[i].id@,
    ) by {
        assert(spec_has_id(elems, nodes[i].id@));
        let w = choose|k: int| 0 <= k < elems.len() && elems[k].id@ == nodes[i].id@;
        assert(after[w].id@ == nodes[i].id@);
    }
}

/// A button pass keeps covering the snapshot's identities.
pub proof fn lemma_covers_after_mouse(elems: Seq<Element>, nodes: Seq<LayoutNode>, pressed: bool)
    requires
        spec_covers(elems, nodes),
    ensures
        spec_covers(spec_mouse_pass(elems, nodes, pressed), nodes),
{
    lemma_mouse_pass_preserves_ids(elems, nodes, pressed);
    let after = spec_mouse_pass(elems, nodes, pressed);
    assert forall|i: int| 0 <= i < nodes.len() implies spec_has_id(
        after,
        #[trigger] nodes[i].id@,
    ) by {
        assert(spec_has_id(elems, nodes[i].id@));
        let w = choose|k: int| 0 <= k < elems.len() && elems[k].id@ == nodes[i].id@;
        assert(after[w].id@ == nodes[i].id@);
    }
}

/// An element whose identity no node carries comes out of a pointer-move
/// pass untouched.
proof fn lemma_moved_pass_untouched(
    elems: Seq<Element>,
    nodes: Seq<LayoutNode>,
    pointer: Position,
    j: int,
)
    requires
        spec_covers(elems, nodes),
        0 <= j < elems.len(),
        forall|m: int| 0 <= m < nodes.len() ==> (#[trigger] nodes[m].id@) != elems[j].id@,
    ensures
        spec_moved_pass(elems, nodes, pointer)[j] == elems[j],
    decreases nodes.len(),
{
    if nodes.len() == 0 {
    } else {
        let front = nodes.drop_last();
        assert(forall|m: int| 0 <= m < front.len() ==> #[trigger] front[m] == nodes[m]);
        lemma_moved_pass_untouched(elems, front, pointer, j);
        lemma_moved_pass_preserves_ids(elems, front, pointer);
        let mid = spec_moved_pass(elems, front, pointer);
        let id = nodes.last().id@;
        assert(spec_has_id(elems, id));
        let w = choose|k: int| 0 <= k < elems.len() && elems[k].id@ == id;
        assert(mid[w].id@ == id);
        assert(spec_has_id(mid, id));
        lemma_find_index(mid, id);
        let jj = spec_find_index(mid, id);
        assert(mid[jj].id@ == id);
        assert(mid[j].id@ == elems[j].id@);
        assert(jj != j);
    }
}

/// An element whose identity no node carries comes out of a button pass
/// untouched.
proof fn lemma_mouse_pass_untouched(
    elems: Seq<Element>,
    nodes: Seq<LayoutNode>,
    pressed: bool,
    j: int,
)
    requires
        spec_covers(elems, nodes),
        0 <= j < elems.len(),
        forall|m: int| 0 <= m < nodes.len() ==> (#[trigger] nodes[m].id@) != elems[j].id@,
    ensures
        spec_mouse_pass(elems, nodes, pressed)[j] == elems[j],
    decreases nodes.len(),
{
    if nodes.len() == 0 {
    } else {
        let front = nodes.drop_last();
        assert(forall|m: int| 0 <= m < front.len() ==> #[trigger] front[m] == nodes[m]);
        lemma_mouse_pass_untouched(elems, front, pressed, j);
        lemma_mouse_pass_preserves_ids(elems, front, pressed);
        let mid = spec_mouse_pass(elems, front, pressed);
        let id = nodes.last().id@;
        assert(spec_has_id(elems, id));
        let w = choose|k: int| 0 <= k < elems.len() && elems[k].id@ == id;
        assert(mid[w].id@ == id);
        assert(spec_has_id(mid, id));
        lemma_find_index(mid, id);
        let jj = spec_find_index(mid, id);
        assert(mid[jj].id@ == id);
        assert(mid[j].id@ == elems[j].id@);
        assert(jj != j);
    }
}

/// With distinct identities, a widget's element goes through a pointer-move
/// pass exactly one hover step, against its own node's hit test.
pub proof fn lemma_moved_pass_element(
    elems: Seq<Element>,
    nodes: Seq<LayoutNode>,
    pointer: Position,
    i: int,
)
    requires
        spec_covers(elems, nodes),
        spec_distinct_ids(nodes),
        0 <= i < nodes.len(),
    ensures
        spec_moved_pass(elems, nodes, pointer)[spec_find_index(elems, nodes[i].id@)]
            == spec_hover_step(
            elems[spec_find_index(elems, nodes[i].id@)],
            spec_node_contains(nodes[i], pointer),
        ),
    decreases nodes.len(),
{
    let id = nodes[i].id@;
    assert(spec_has_id(elems, id));
    lemma_find_index(elems, id);
    let j = spec_find_index(elems, id);
    let front = nodes.drop_last();
    assert(forall|m: int| 0 <= m < front.len() ==> #[trigger] front[m] == nodes[m]);
    lemma_moved_pass_preserves_ids(elems, front, pointer);
    let mid = spec_moved_pass(elems, front, pointer);
    if i == nodes.len() - 1 {
        assert forall|m: int| 0 <= m < front.len() implies (#[trigger] front[m].id@)
            != elems[j].id@ by {
            assert(nodes[m].id@ != nodes[i].id@);
        }
        lemma_moved_pass_untouched(elems, front, pointer, j);
        lemma_find_index_same_ids(elems, mid, id);
    } else {
        lemma_moved_pass_element(elems, front, pointer, i);
        lemma_find_index_same_ids(elems, mid, id);
        let last_id = nodes.last().id@;
        assert(last_id != id);
        assert(spec_has_id(elems, last_id));
        let w = choose|k: int| 0 <= k < elems.len() && elems[k].id@ == last_id;
        assert(mid[w].id@ == last_id);
        assert(spec_has_id(mid, last_id));
        lemma_find_index(mid, last_id);
        let jj = spec_find_index(mid, last_id);
        assert(mid[jj].id@ == last_id);
        assert(mid[j].id@ == id);
        assert(jj != j);
    }
}

/// With distinct identities, a widget's element goes through a button pass
/// exactly one press-or-release step.
pub proof fn lemma_mouse_pass_element(
    elems: Seq<Element>,
    nodes: Seq<LayoutNode>,
    pressed: bool,
    i: int,
)
    requires
        spec_covers(elems, nodes),
        spec_distinct_ids(nodes),
        0 <= i < nodes.len(),
    ensures
        spec_mouse_pass(elems, nodes, pressed)[spec_find_index(elems, nodes[i].id@)]
            == spec_mouse_step(elems[spec_find_index(elems, nodes[i].id@)], pressed),
    decreases nodes.len(),
{
    let id = nodes[i].id@;
    assert(spec_has_id(elems, id));
    lemma_find_index(elems, id);
    let j = spec_find_index(elems, id);
    let front = nodes.drop_last();
    assert(forall|m: int| 0 <= m < front.len() ==> #[trigger] front[m] == nodes[m]);
    lemma_mouse_pass_preserves_ids(elems, front, pressed);
    let mid = spec_mouse_pass(elems, front, pressed);
    if i == nodes.len() - 1 {
        assert forall|m: int| 0 <= m < front.len() implies (#[trigger] front[m].id@)
            != elems[j].id@ by {
            assert(nodes[m].id@ != nodes[i].id@);
        }
        lemma_mouse_pass_untouched(elems, front, pressed, j);
        lemma_find_index_same_ids(elems, mid, id);
    } else {
        lemma_mouse_pass_element(elems, front, pressed, i);
        lemma_find_index_same_ids(elems, mid, id);
        let last_id = nodes.last().id@;
        assert(last_id != id);
        assert(spec_has_id(elems, last_id));
        let w = choose|k: int| 0 <= k < elems.len() && elems[k].id@ == last_id;
        assert(mid[w].id@ == last_id);
        assert(spec_has_id(mid, last_id));
        lemma_find_index(mid, last_id);
        let jj = spec_find_index(mid, last_id);
        assert(mid[jj].id@ == last_id);
        assert(mid[j].id@ == id);
        assert(jj != j);
    }
}

/// A callback that matches no node of the snapshot never fires in a
/// pointer-move pass.
proof fn lemma_moved_pass_count_unmatched(
    elems: Seq<Element>,
    nodes: Seq<LayoutNode>,
    pointer: Position,
    cbs: Seq<EventFn>,
    c: usize,
)
    requires
        spec_covers(elems, nodes),
        cbs.len() <= usize::MAX,
        forall|m: int|
            0 <= m < nodes.len() ==> !spec_hover_matches(cbs[c as int], #[trigger] nodes[m].id@),
    ensures
        spec_fire_count(spec_moved_pass_firings(elems, nodes, pointer, cbs), c) == 0,
    decreases nodes.len(),
{
    if nodes.len() == 0 {
    } else {
        let front = nodes.drop_last();
        assert(forall|m: int| 0 <= m < front.len() ==> #[trigger] front[m] == nodes[m]);
        lemma_moved_pass_count_unmatched(elems, front, pointer, cbs, c);
        let mid = spec_moved_pass(elems, front, pointer);
        lemma_hover_firings_count(cbs, nodes.last().id@, c);
        lemma_fire_count_concat(
            spec_moved_pass_firings(elems, front, pointer, cbs),
            spec_moved_node_firings(mid, nodes.last(), pointer, cbs),
            c,
        );
    }
}

/// A callback that matches no node of the snapshot never fires in a button
/// pass.
proof fn lemma_mouse_pass_count_unmatched(
    elems: Seq<Element>,
    nodes: Seq<LayoutNode>,
    pressed: bool,
    cbs: Seq<EventFn>,
    c: usize,
)
    requires
        spec_covers(elems, nodes),
        cbs.len() <= usize::MAX,
        forall|m: int|
            0 <= m < nodes.len() ==> !spec_click_matches(cbs[c as int], #[trigger] nodes[m].id@),
    ensures
        spec_fire_count(spec_mouse_pass_firings(elems, nodes, pressed, cbs), c) == 0,
    decreases nodes.len(),
{
    if nodes.len() == 0 {
    } else {
        let front = nodes.drop_last();
        assert(forall|m: int| 0 <= m < front.len() ==> #[trigger] front[m] == nodes[m]);
        lemma_mouse_pass_count_unmatched(elems, front, pressed, cbs, c);
        let mid = spec_mouse_pass(elems, front, pressed);
        lemma_click_firings_count(cbs, nodes.last().id@, c);
        lemma_fire_count_concat(
            spec_mouse_pass_firings(elems, front, pressed, cbs),
            spec_mouse_node_firings(mid, nodes.last(), pressed, cbs),
            c,
        );
    }
}

/// A hover callback matching node `i` fires exactly once in a pointer-move
/// pass when its widget takes the idle-to-hovered edge, and never otherwise.
pub proof fn lemma_moved_pass_fire_count(
    elems: Seq<Element>,
    nodes: Seq<LayoutNode>,
    pointer: Position,
    cbs: Seq<EventFn>,
    c: usize,
    i: int,
)
    requires
        spec_covers(elems, nodes),
        spec_distinct_ids(nodes),
        cbs.len() <= usize::MAX,
        0 <= i < nodes.len(),
        c < cbs.len(),
        spec_hover_matches(cbs[c as int], nodes[i].id@),
    ensures
        spec_fire_count(spec_moved_pass_firings(elems, nodes, pointer, cbs), c)
            == if spec_hover_fires(
            elems[spec_find_index(elems, nodes[i].id@)],
            spec_node_contains(nodes[i], pointer),
        ) {
            1nat
        } else {
            0nat
        },
    decreases nodes.len(),
{
    let id = nodes[i].id@;
    assert(spec_has_id(elems, id));
    lemma_find_index(elems, id);
    let j = spec_find_index(elems, id);
    let front = nodes.drop_last();
    assert(forall|m: int| 0 <= m < front.len() ==> #[trigger] front[m] == nodes[m]);
    lemma_moved_pass_preserves_ids(elems, front, pointer);
    let mid = spec_moved_pass(elems, front, pointer);
    let last_id = nodes.last().id@;
    lemma_fire_count_concat(
        spec_moved_pass_firings(elems, front, pointer, cbs),
        spec_moved_node_firings(mid, nodes.last(), pointer, cbs),
        c,
    );
    if i == nodes.len() - 1 {
        assert forall|m: int|
            0 <= m < front.len() implies !spec_hover_matches(
            cbs[c as int],
            #[trigger] front[m].id@,
        ) by {
            lemma_match_is_exclusive(cbs[c as int], id, front[m].id@);
            assert(nodes[m].id@ != nodes[i].id@);
        }
        lemma_moved_pass_count_unmatched(elems, front, pointer, cbs, c);
        assert forall|m: int| 0 <= m < front.len() implies (#[trigger] front[m].id@)
            != elems[j].id@ by {
            assert(nodes[m].id@ != nodes[i].id@);
        }
        lemma_moved_pass_untouched(elems, front, pointer, j);
        lemma_find_index_same_ids(elems, mid, id);
        lemma_hover_firings_count(cbs, id, c);
    } else {
        lemma_moved_pass_fire_count(elems, front, pointer, cbs, c, i);
        assert(last_id != id);
        lemma_match_is_exclusive(cbs[c as int], id, last_id);
        lemma_hover_firings_count(cbs, last_id, c);
    }
}

/// A click callback matching node `i` fires exactly once in a button pass
/// when its widget takes the hovered-to-pressed edge, and never otherwise.
pub proof fn lemma_mouse_pass_fire_count(
    elems: Seq<Element>,
    nodes: Seq<LayoutNode>,
    pressed: bool,
    cbs: Seq<EventFn>,
    c: usize,
    i: int,
)
    requires
        spec_covers(elems, nodes),
        spec_distinct_ids(nodes),
        cbs.len() <= usize::MAX,
        0 <= i < nodes.len(),
        c < cbs.len(),
        spec_click_matches(cbs[c as int], nodes[i].id@),
    ensures
        spec_fire_count(spec_mouse_pass_firings(elems, nodes, pressed, cbs), c)
            == if spec_click_fires(elems[spec_find_index(elems, nodes[i].id@)], pressed) {
            1nat
        } else {
            0nat
        },
    decreases nodes.len(),
{
    let id = nodes[i].id@;
    assert(spec_has_id(elems, id));
    lemma_find_index(elems, id);
    let j = spec_find_index(elems, id);
    let front = nodes.drop_last();
    assert(forall|m: int| 0 <= m < front.len() ==> #[trigger] front[m] == nodes[m]);
    lemma_mouse_pass_preserves_ids(elems, front, pressed);
    let mid = spec_mouse_pass(elems, front, pressed);
    let last_id = nodes.last().id@;
    lemma_fire_count_concat(
        spec_mouse_pass_firings(elems, front, pressed, cbs),
        spec_mouse_node_firings(mid, nodes.last(), pressed, cbs),
        c,
    );
    if i == nodes.len() - 1 {
        assert forall|m: int|
            0 <= m < front.len() implies !spec_click_matches(
            cbs[c as int],
            #[trigger] front[m].id@,
        ) by {
            lemma_match_is_exclusive(cbs[c as int], id, front[m].id@);
            assert(nodes[m].id@ != nodes[i].id@);
        }
        lemma_mouse_pass_count_unmatched(elems, front, pressed, cbs, c);
        assert forall|m: int| 0 <= m < front.len() implies (#[trigger] front[m].id@)
            != elems[j].id@ by {
            assert(nodes[m].id@ != nodes[i].id@);
        }
        lemma_mouse_pass_untouched(elems, front, pressed, j);
        lemma_find_index_same_ids(elems, mid, id);
        lemma_click_firings_count(cbs, id, c);
    } else {
        lemma_mouse_pass_fire_count(elems, front, pressed, cbs, c, i);
        assert(last_id != id);
        lemma_match_is_exclusive(cbs[c as int], id, last_id);
        lemma_click_firings_count(cbs, last_id, c);
    }
}

/// A press pass over a snapshot that never names `id` contributes no click
/// firing of `id`.
proof fn lemma_press_pass_projection_unmatched(
    elems: Seq<Element>,
    nodes: Seq<LayoutNode>,
    cbs: Seq<EventFn>,
    id: Seq<char>,
)
    requires
        spec_covers(elems, nodes),
        cbs.len() <= usize::MAX,
        forall|m: int| 0 <= m < nodes.len() ==> (#[trigger] nodes[m].id@) != id,
    ensures
        spec_click_firings_for(spec_mouse_pass_firings(elems, nodes, true, cbs), cbs, id)
            == Seq::<usize>::empty(),
    decreases nodes.len(),
{
    if nodes.len() == 0 {
        assert(spec_click_firings_for(Seq::<usize>::empty(), cbs, id) =~= Seq::<usize>::empty());
    } else {
        let front = nodes.drop_last();
        assert(forall|m: int| 0 <= m < front.len() ==> #[trigger] front[m] == nodes[m]);
        lemma_press_pass_projection_unmatched(elems, front, cbs, id);
        let mid = spec_mouse_pass(elems, front, true);
        let block = spec_mouse_node_firings(mid, nodes.last(), true, cbs);
        let last_id = nodes.last().id@;
        lemma_click_firings_elements(cbs, last_id);
        assert forall|p: int|
            0 <= p < block.len() implies !spec_click_matches(
            cbs[(#[trigger] block[p]) as int],
            id,
        ) by {
            lemma_match_is_exclusive(cbs[block[p] as int], id, last_id);
        }
        lemma_click_firings_for_extremes(block, cbs, id);
        lemma_click_firings_for_concat(
            spec_mouse_pass_firings(elems, front, true, cbs),
            block,
            cbs,
            id,
        );
        assert(spec_click_firings_for(spec_mouse_pass_firings(elems, nodes, true, cbs), cbs, id)
            =~= Seq::<usize>::empty());
    }
}

/// A pointer-move pass over a snapshot that never names `id` contributes no
/// hover firing of `id`.
proof fn lemma_move_pass_projection_unmatched(
    elems: Seq<Element>,
    nodes: Seq<LayoutNode>,
    pointer: Position,
    cbs: Seq<EventFn>,
    id: Seq<char>,
)
    requires
        spec_covers(elems, nodes),
        cbs.len() <= usize::MAX,
        forall|m: int| 0 <= m < nodes.len() ==> (#[trigger] nodes[m].id@) != id,
    ensures
        spec_hover_firings_for(spec_moved_pass_firings(elems, nodes, pointer, cbs), cbs, id)
            == Seq::<usize>::empty(),
    decreases nodes.len(),
{
    if nodes.len() == 0 {
        assert(spec_hover_firings_for(Seq::<usize>::empty(), cbs, id) =~= Seq::<usize>::empty());
    } else {
        let front = nodes.drop_last();
        assert(forall|m: int| 0 <= m < front.len() ==> #[trigger] front[m] == nodes[m]);
        lemma_move_pass_projection_unmatched(elems, front, pointer, cbs, id);
        let mid = spec_moved_pass(elems, front, pointer);
        let block = spec_moved_node_firings(mid, nodes.last(), pointer, cbs);
        let last_id = nodes.last().id@;
        lemma_hover_firings_elements(cbs, last_id);
        assert forall|p: int|
            0 <= p < block.len() implies !spec_hover_matches(
            cbs[(#[trigger] block[p]) as int],
            id,
        ) by {
            lemma_match_is_exclusive(cbs[block[p] as int], id, last_id);
        }
        lemma_hover_firings_for_extremes(block, cbs, id);
        lemma_hover_firings_for_concat(
            spec_moved_pass_firings(elems, front, pointer, cbs),
            block,
            cbs,
            id,
        );
        assert(spec_hover_firings_for(
            spec_moved_pass_firings(elems, nodes, pointer, cbs),
            cbs,
            id,
        ) =~= Seq::<usize>::empty());
    }
}

// ---------------------------------------------------------------------------
// The laws themselves
// ---------------------------------------------------------------------------

/// A pointer-move that lands inside an idle widget's bounds leaves the widget
/// hovered, and the pass fires each of its registered hover callbacks exactly
/// once.
pub proof fn lemma_move_inside_idle_hovers(
    elems: Seq<Element>,
    nodes: Seq<LayoutNode>,
    pointer: Position,
    cbs: Seq<EventFn>,
    i: int,
)
    requires
        spec_covers(elems, nodes),
        spec_distinct_ids(nodes),
        cbs.len() <= usize::MAX,
        0 <= i < nodes.len(),
        spec_node_contains(nodes[i], pointer),
        elems[spec_find_index(elems, nodes[i].id@)].state == ElementState::Default,
    ensures
        spec_moved_pass(elems, nodes, pointer)[spec_find_index(elems, nodes[i].id@)].state
            == ElementState::Hovered,
        forall|c: usize|
            c < cbs.len() && spec_hover_matches(cbs[c as int], nodes[i].id@) ==> (
            #[trigger] spec_fire_count(spec_moved_pass_firings(elems, nodes, pointer, cbs), c))
                == 1,
{
    lemma_moved_pass_element(elems, nodes, pointer, i);
    assert forall|c: usize|
        c < cbs.len() && spec_hover_matches(cbs[c as int], nodes[i].id@) implies spec_fire_count(
        spec_moved_pass_firings(elems, nodes, pointer, cbs),
        c,
    ) == 1 by {
        lemma_moved_pass_fire_count(elems, nodes, pointer, cbs, c, i);
    }
}

/// A pointer-move that leaves a widget's bounds clears it back to idle —
/// from hovered and from pressed alike — and fires none of that widget's
/// callbacks.
pub proof fn lemma_move_outside_clears(
    elems: Seq<Element>,
    nodes: Seq<LayoutNode>,
    pointer: Position,
    cbs: Seq<EventFn>,
    i: int,
)
    requires
        spec_covers(elems, nodes),
        spec_distinct_ids(nodes),
        cbs.len() <= usize::MAX,
        0 <= i < nodes.len(),
        !spec_node_contains(nodes[i], pointer),
    ensures
        spec_moved_pass(elems, nodes, pointer)[spec_find_index(elems, nodes[i].id@)].state
            == ElementState::Default,
        forall|c: usize|
            c < cbs.len() && cbs[c as int].spec_id() == nodes[i].id@ ==> (
            #[trigger] spec_fire_count(spec_moved_pass_firings(elems, nodes, pointer, cbs), c))
                == 0,
{
    lemma_moved_pass_element(elems, nodes, pointer, i);
    let id = nodes[i].id@;
    assert forall|c: usize|
        c < cbs.len() && cbs[c as int].spec_id() == id implies spec_fire_count(
        spec_moved_pass_firings(elems, nodes, pointer, cbs),
        c,
    ) == 0 by {
        match cbs[c as int] {
            EventFn::OnHover(_) => {
                lemma_moved_pass_fire_count(elems, nodes, pointer, cbs, c, i);
            },
            EventFn::OnClick(_) => {
                assert forall|m: int|
                    0 <= m < nodes.len() implies !spec_hover_matches(
                    cbs[c as int],
                    #[trigger] nodes[m].id@,
                ) by {}
                lemma_moved_pass_count_unmatched(elems, nodes, pointer, cbs, c);
            },
        }
    }
}

/// A button press on a hovered widget presses it, records the hovered state
/// for rollback, and fires each of its registered click callbacks exactly
/// once — and no hover callback, of any widget, fires on a button event.
pub proof fn lemma_press_on_hovered_clicks(
    elems: Seq<Element>,
    nodes: Seq<LayoutNode>,
    cbs: Seq<EventFn>,
    i: int,
)
    requires
        spec_covers(elems, nodes),
        spec_distinct_ids(nodes),
        cbs.len() <= usize::MAX,
        0 <= i < nodes.len(),
        elems[spec_find_index(elems, nodes[i].id@)].state == ElementState::Hovered,
    ensures
        spec_mouse_pass(elems, nodes, true)[spec_find_index(elems, nodes[i].id@)].state
            == ElementState::Clicked,
        spec_mouse_pass(elems, nodes, true)[spec_find_index(elems, nodes[i].id@)].previous_state
            == ElementState::Hovered,
        forall|c: usize|
            c < cbs.len() && spec_click_matches(cbs[c as int], nodes[i].id@) ==> (
            #[trigger] spec_fire_count(spec_mouse_pass_firings(elems, nodes, true, cbs), c)) == 1,
        forall|c: usize|
            c < cbs.len() && cbs[c as int] is OnHover ==> (#[trigger] spec_fire_count(
                spec_mouse_pass_firings(elems, nodes, true, cbs),
                c,
            )) == 0,
{
    lemma_mouse_pass_element(elems, nodes, true, i);
    assert forall|c: usize|
        c < cbs.len() && spec_click_matches(cbs[c as int], nodes[i].id@) implies spec_fire_count(
        spec_mouse_pass_firings(elems, nodes, true, cbs),
        c,
    ) == 1 by {
        lemma_mouse_pass_fire_count(elems, nodes, true, cbs, c, i);
    }
    assert forall|c: usize|
        c < cbs.len() && cbs[c as int] is OnHover implies spec_fire_count(
        spec_mouse_pass_firings(elems, nodes, true, cbs),
        c,
    ) == 0 by {
        assert(forall|m: int|
            0 <= m < nodes.len() ==> !spec_click_matches(cbs[c as int], #[trigger] nodes[m].id@));
        lemma_mouse_pass_count_unmatched(elems, nodes, true, cbs, c);
    }
}

/// A button release fires nothing at all: click callbacks fire only on the
/// hovered-to-pressed edge, and hover callbacks never fire on button events.
pub proof fn lemma_release_pass_is_silent(
    elems: Seq<Element>,
    nodes: Seq<LayoutNode>,
    cbs: Seq<EventFn>,
)
    ensures
        spec_mouse_pass_firings(elems, nodes, false, cbs) == Seq::<usize>::empty(),
    decreases nodes.len(),
{
    if nodes.len() == 0 {
    } else {
        lemma_release_pass_is_silent(elems, nodes.drop_last(), cbs);
        assert(spec_mouse_pass_firings(elems, nodes, false, cbs) =~= Seq::<usize>::empty());
    }
}

/// A button press on an idle widget is a no-op: the element is unchanged and
/// none of its callbacks fire.
pub proof fn lemma_press_on_idle_is_noop(
    elems: Seq<Element>,
    nodes: Seq<LayoutNode>,
    cbs: Seq<EventFn>,
    i: int,
)
    requires
        spec_covers(elems, nodes),
        spec_distinct_ids(nodes),
        cbs.len() <= usize::MAX,
        0 <= i < nodes.len(),
        elems[spec_find_index(elems, nodes[i].id@)].state == ElementState::Default,
    ensures
        spec_mouse_pass(elems, nodes, true)[spec_find_index(elems, nodes[i].id@)]
            == elems[spec_find_index(elems, nodes[i].id@)],
        forall|c: usize|
            c < cbs.len() && cbs[c as int].spec_id() == nodes[i].id@ ==> (
            #[trigger] spec_fire_count(spec_mouse_pass_firings(elems, nodes, true, cbs), c)) == 0,
{
    lemma_mouse_pass_element(elems, nodes, true, i);
    let id = nodes[i].id@;
    assert forall|c: usize|
        c < cbs.len() && cbs[c as int].spec_id() == id implies spec_fire_count(
        spec_mouse_pass_firings(elems, nodes, true, cbs),
        c,
    ) == 0 by {
        match cbs[c as int] {
            EventFn::OnClick(_) => {
                lemma_mouse_pass_fire_count(elems, nodes, true, cbs, c, i);
            },
            EventFn::OnHover(_) => {
                assert forall|m: int|
                    0 <= m < nodes.len() implies !spec_click_matches(
                    cbs[c as int],
                    #[trigger] nodes[m].id@,
                ) by {}
                lemma_mouse_pass_count_unmatched(elems, nodes, true, cbs, c);
            },
        }
    }
}

/// A release restores a pressed widget's state to exactly what was recorded
/// when it was pressed.
pub proof fn lemma_release_restores_recorded(e: Element)
    requires
        e.state == ElementState::Clicked,
    ensures
        spec_mouse_step(e, false).state == e.previous_state,
{
}

/// A release pass restores a pressed widget's state to the value its element
/// recorded when it was pressed, while leaving the record itself in place.
pub proof fn lemma_release_pass_restores(elems: Seq<Element>, nodes: Seq<LayoutNode>, i: int)
    requires
        spec_covers(elems, nodes),
        spec_distinct_ids(nodes),
        0 <= i < nodes.len(),
        elems[spec_find_index(elems, nodes[i].id@)].state == ElementState::Clicked,
    ensures
        spec_mouse_pass(elems, nodes, false)[spec_find_index(elems, nodes[i].id@)].state
            == elems[spec_find_index(elems, nodes[i].id@)].previous_state,
{
    lemma_mouse_pass_element(elems, nodes, false, i);
}

/// Press then release on a hovered widget returns it to hovered: the press
/// records the pre-press state, and the release rolls back to it.
pub proof fn lemma_press_then_release_restores(
    elems: Seq<Element>,
    nodes: Seq<LayoutNode>,
    i: int,
)
    requires
        spec_covers(elems, nodes),
        spec_distinct_ids(nodes),
        0 <= i < nodes.len(),
        elems[spec_find_index(elems, nodes[i].id@)].state == ElementState::Hovered,
    ensures
        spec_mouse_pass(spec_mouse_pass(elems, nodes, true), nodes, false)[spec_find_index(
            elems,
            nodes[i].id@,
        )].state == elems[spec_find_index(elems, nodes[i].id@)].state,
{
    let id = nodes[i].id@;
    assert(spec_has_id(elems, id));
    lemma_find_index(elems, id);
    let j = spec_find_index(elems, id);
    lemma_mouse_pass_element(elems, nodes, true, i);
    let after_press = spec_mouse_pass(elems, nodes, true);
    lemma_covers_after_mouse(elems, nodes, true);
    lemma_mouse_pass_preserves_ids(elems, nodes, true);
    lemma_find_index_same_ids(elems, after_press, id);
    lemma_mouse_pass_element(after_press, nodes, false, i);
}

/// Re-delivering a pointer-move the registry has already absorbed fires
/// nothing: every widget the pointer is inside is no longer idle, and a
/// widget the pointer is outside never fires on a move.
pub proof fn lemma_repeated_move_is_quiet(
    elems: Seq<Element>,
    nodes: Seq<LayoutNode>,
    pointer: Position,
    cbs: Seq<EventFn>,
)
    requires
        spec_covers(elems, nodes),
        spec_distinct_ids(nodes),
    ensures
        spec_moved_pass_firings(spec_moved_pass(elems, nodes, pointer), nodes, pointer, cbs)
            == Seq::<usize>::empty(),
{
    let after = spec_moved_pass(elems, nodes, pointer);
    lemma_covers_after_moved(elems, nodes, pointer);
    lemma_moved_pass_preserves_ids(elems, nodes, pointer);
    assert forall|m: int|
        0 <= m < nodes.len() implies !spec_hover_fires(
        after[spec_find_index(after, #[trigger] nodes[m].id@)],
        spec_node_contains(nodes[m], pointer),
    ) by {
        lemma_moved_pass_element(elems, nodes, pointer, m);
        lemma_find_index_same_ids(elems, after, nodes[m].id@);
    }
    lemma_quiet_moved_pass(after, nodes, pointer, cbs);
}

/// The firing order of a hover edge: reading a pointer-move pass's firing
/// list and keeping exactly the hover callbacks of a widget the move hovers
/// yields that widget's hover registrations, in registration order.
pub proof fn lemma_hover_fires_in_registration_order(
    elems: Seq<Element>,
    nodes: Seq<LayoutNode>,
    pointer: Position,
    cbs: Seq<EventFn>,
    i: int,
)
    requires
        spec_covers(elems, nodes),
        spec_distinct_ids(nodes),
        cbs.len() <= usize::MAX,
        0 <= i < nodes.len(),
        spec_node_contains(nodes[i], pointer),
        elems[spec_find_index(elems, nodes[i].id@)].state == ElementState::Default,
    ensures
        spec_hover_firings_for(
            spec_moved_pass_firings(elems, nodes, pointer, cbs),
            cbs,
            nodes[i].id@,
        ) == spec_hover_firings(cbs, nodes[i].id@),
    decreases nodes.len(),
{
    let id = nodes[i].id@;
    assert(spec_has_id(elems, id));
    lemma_find_index(elems, id);
    let j = spec_find_index(elems, id);
    let front = nodes.drop_last();
    assert(forall|m: int| 0 <= m < front.len() ==> #[trigger] front[m] == nodes[m]);
    lemma_moved_pass_preserves_ids(elems, front, pointer);
    let mid = spec_moved_pass(elems, front, pointer);
    let ffront = spec_moved_pass_firings(elems, front, pointer, cbs);
    let block = spec_moved_node_firings(mid, nodes.last(), pointer, cbs);
    lemma_hover_firings_for_concat(ffront, block, cbs, id);
    if i == nodes.len() - 1 {
        assert forall|m: int| 0 <= m < front.len() implies (#[trigger] front[m].id@)
            != elems[j].id@ by {
            assert(nodes[m].id@ != nodes[i].id@);
        }
        lemma_move_pass_projection_unmatched(elems, front, pointer, cbs, id);
        lemma_moved_pass_untouched(elems, front, pointer, j);
        lemma_find_index_same_ids(elems, mid, id);
        lemma_hover_firings_elements(cbs, id);
        lemma_hover_firings_for_extremes(block, cbs, id);
        assert(spec_hover_firings_for(
            spec_moved_pass_firings(elems, nodes, pointer, cbs),
            cbs,
            id,
        ) =~= spec_hover_firings(cbs, id));
    } else {
        lemma_hover_fires_in_registration_order(elems, front, pointer, cbs, i);
        let last_id = nodes.last().id@;
        assert(last_id != id);
        lemma_hover_firings_elements(cbs, last_id);
        assert forall|p: int|
            0 <= p < block.len() implies !spec_hover_matches(
            cbs[(#[trigger] block[p]) as int],
            id,
        ) by {
            lemma_match_is_exclusive(cbs[block[p] as int], id, last_id);
        }
        lemma_hover_firings_for_extremes(block, cbs, id);
        assert(spec_hover_firings_for(
            spec_moved_pass_firings(elems, nodes, pointer, cbs),
            cbs,
            id,
        ) =~= spec_hover_firings(cbs, id));
    }
}

/// The firing order of a click edge: reading a press pass's firing list and
/// keeping exactly the click callbacks of a hovered widget yields that
/// widget's click registrations, in registration order.
pub proof fn lemma_press_fires_in_registration_order(
    elems: Seq<Element>,
    nodes: Seq<LayoutNode>,
    cbs: Seq<EventFn>,
    i: int,
)
    requires
        spec_covers(elems, nodes),
        spec_distinct_ids(nodes),
        cbs.len() <= usize::MAX,
        0 <= i < nodes.len(),
        elems[spec_find_index(elems, nodes[i].id@)].state == ElementState::Hovered,
    ensures
        spec_click_firings_for(spec_mouse_pass_firings(elems, nodes, true, cbs), cbs, nodes[i].id@)
            == spec_click_firings(cbs, nodes[i].id@),
    decreases nodes.len(),
{
    let id = nodes[i].id@;
    assert(spec_has_id(elems, id));
    lemma_find_index(elems, id);
    let j = spec_find_index(elems, id);
    let front = nodes.drop_last();
    assert(forall|m: int| 0 <= m < front.len() ==> #[trigger] front[m] == nodes[m]);
    lemma_mouse_pass_preserves_ids(elems, front, true);
    let mid = spec_mouse_pass(elems, front, true);
    let ffront = spec_mouse_pass_firings(elems, front, true, cbs);
    let block = spec_mouse_node_firings(mid, nodes.last(), true, cbs);
    lemma_click_firings_for_concat(ffront, block, cbs, id);
    if i == nodes.len() - 1 {
        assert forall|m: int| 0 <= m < front.len() implies (#[trigger] front[m].id@)
            != elems[j].id@ by {
            assert(nodes[m].id@ != nodes[i].id@);
        }
        lemma_press_pass_projection_unmatched(elems, front, cbs, id);
        lemma_mouse_pass_untouched(elems, front, true, j);
        lemma_find_index_same_ids(elems, mid, id);
        lemma_click_firings_elements(cbs, id);
        lemma_click_firings_for_extremes(block, cbs, id);
        assert(spec_click_firings_for(
            spec_mouse_pass_firings(elems, nodes, true, cbs),
            cbs,
            id,
        ) =~= spec_click_firings(cbs, id));
    } else {
        lemma_press_fires_in_registration_order(elems, front, cbs, i);
        let last_id = nodes.last().id@;
        assert(last_id != id);
        lemma_click_firings_elements(cbs, last_id);
        assert forall|p: int|
            0 <= p < block.len() implies !spec_click_matches(
            cbs[(#[trigger] block[p]) as int],
            id,
        ) by {
            lemma_match_is_exclusive(cbs[block[p] as int], id, last_id);
        }
        lemma_click_firings_for_extremes(block, cbs, id);
        assert(spec_click_firings_for(
            spec_mouse_pass_firings(elems, nodes, true, cbs),
            cbs,
            id,
        ) =~= spec_click_firings(cbs, id));
    }
}

/// A pointer-move pass in which no widget takes the idle-to-hovered edge
/// fires nothing at all.
proof fn lemma_quiet_moved_pass(
    elems: Seq<Element>,
    nodes: Seq<LayoutNode>,
    pointer: Position,
    cbs: Seq<EventFn>,
)
    requires
        spec_covers(elems, nodes),
        spec_distinct_ids(nodes),
        forall|m: int|
            0 <= m < nodes.len() ==> !spec_hover_fires(
                elems[spec_find_index(elems, #[trigger] nodes[m].id@)],
                spec_node_contains(nodes[m], pointer),
            ),
    ensures
        spec_moved_pass_firings(elems, nodes, pointer, cbs) == Seq::<usize>::empty(),
    decreases nodes.len(),
{
    if nodes.len() == 0 {
    } else {
        let front = nodes.drop_last();
        assert(forall|m: int| 0 <= m < front.len() ==> #[trigger] front[m] == nodes[m]);
        lemma_quiet_moved_pass(elems, front, pointer, cbs);
        let mid = spec_moved_pass(elems, front, pointer);
        let i = nodes.len() - 1;
        let id = nodes[i as int].id@;
        assert(spec_has_id(elems, id));
        lemma_find_index(elems, id);
        let j = spec_find_index(elems, id);
        assert forall|m: int| 0 <= m < front.len() implies (#[trigger] front[m].id@)
            != elems[j].id@ by {
            assert(nodes[m].id@ != nodes[i as int].id@);
        }
        lemma_moved_pass_untouched(elems, front, pointer, j);
        lemma_moved_pass_preserves_ids(elems, front, pointer);
        lemma_find_index_same_ids(elems, mid, id);
        assert(spec_moved_node_firings(mid, nodes.last(), pointer, cbs) =~= Seq::<usize>::empty());
        assert(spec_moved_pass_firings(elems, nodes, pointer, cbs) =~= Seq::<usize>::empty());
    }
}

} // verus!
