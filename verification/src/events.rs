use vstd::prelude::*;

use crate::geometry::Position;
use crate::layout::LayoutNode;
use crate::layout::spec_node_contains;

verus! {

// ---------------------------------------------------------------------------
// Input events
//
// The windowing layer delivers raw input one event at a time. The manager
// only reads cursor motion and mouse buttons; anything else is ignored.
// ---------------------------------------------------------------------------

/// Whether a mouse button went down or came back up.
#[derive(Clone, Copy, Debug, PartialEq, Eq, Structural)]
pub enum ButtonState {
    Pressed,
    Released,
}

/// Which mouse button an input event speaks of. The manager currently treats
/// every button alike.
#[derive(Clone, Copy, Debug, PartialEq, Eq, Structural)]
pub enum MouseButton {
    Left,
    Right,
    Middle,
}

/// A key with a fixed meaning rather than a printable character.
#[derive(Clone, Copy, Debug, PartialEq, Eq, Structural)]
pub enum NamedKey {
    Backspace,
    Space,
    Enter,
}

/// A keyboard key, either printable text or a named key.
#[derive(Clone, Debug)]
pub enum Key {
    Character(String),
    Named(NamedKey),
}

/// A raw window event, as the event loop hands it over.
#[derive(Clone, Debug)]
pub enum WindowEvent {
    CursorMoved { position: Position },
    MouseInput { state: ButtonState, button: MouseButton },
    KeyboardInput { key: Key },
}

// ---------------------------------------------------------------------------
// Callback registry
// ---------------------------------------------------------------------------

/// One callback registration: the widget it listens on, and the trigger it
/// listens for. The side-effecting action itself cannot live here — it is
/// kept by the caller, in the same order, and run for each index that
/// [`EventManager::process`] reports as fired.
#[derive(Clone, Debug)]
pub enum EventFn {
    OnHover(String),
    OnClick(String),
}

/// Does this registration fire when `id` is hovered?
pub open spec fn spec_hover_matches(cb: EventFn, id: Seq<char>) -> bool {
    match cb {
        EventFn::OnHover(cid) => cid@ == id,
        EventFn::OnClick(_) => false,
    }
}

/// Does this registration fire when `id` is clicked?
pub open spec fn spec_click_matches(cb: EventFn, id: Seq<char>) -> bool {
    match cb {
        EventFn::OnHover(_) => false,
        EventFn::OnClick(cid) => cid@ == id,
    }
}

impl EventFn {
    /// The identity this registration listens on.
    pub open spec fn spec_id(self) -> Seq<char> {
        match self {
            EventFn::OnHover(id) => id@,
            EventFn::OnClick(id) => id@,
        }
    }

    pub fn hover(id: &str) -> (r: EventFn)
        ensures
            r is OnHover,
            r.spec_id() == id@,
    {
        EventFn::OnHover(id.to_owned())
    }

    pub fn click(id: &str) -> (r: EventFn)
        ensures
            r is OnClick,
            r.spec_id() == id@,
    {
        EventFn::OnClick(id.to_owned())
    }

    /// Whether this registration fires for a hover of `widget_id`.
    pub fn run_hover(&self, widget_id: &str) -> (r: bool)
        ensures
            r == spec_hover_matches(*self, widget_id@),
    {
        match self {
            EventFn::OnHover(id) => {
                let w: String = widget_id.to_owned();
                *id == w
            },
            EventFn::OnClick(_) => false,
        }
    }

    /// Whether this registration fires for a click of `widget_id`.
    pub fn run_click(&self, widget_id: &str) -> (r: bool)
        ensures
            r == spec_click_matches(*self, widget_id@),
    {
        match self {
            EventFn::OnClick(id) => {
                let w: String = widget_id.to_owned();
                *id == w
            },
            EventFn::OnHover(_) => false,
        }
    }
}

/// Stores callback registrations, in registration order. Built by the
/// application before dispatch begins and handed to the [`EventManager`].
#[derive(Debug)]
pub struct EventContext {
    pub callbacks: Vec<EventFn>,
}

impl EventContext {
    pub fn new() -> (r: EventContext)
        ensures
            r.callbacks@ == Seq::<EventFn>::empty(),
    {
        EventContext { callbacks: Vec::new() }
    }

    /// Appends a registration; entries for the same widget and trigger may
    /// repeat, and all of them fire, in registration order.
    pub fn add(&mut self, callback: EventFn)
        ensures
            final(self).callbacks@ == old(self).callbacks@.push(callback),
    {
        self.callbacks.push(callback);
    }
}

// ---------------------------------------------------------------------------
// Per-widget interaction state
// ---------------------------------------------------------------------------

/// The interaction state of one widget: untouched, under the pointer, or
/// pressed.
#[derive(Clone, Copy, Debug, PartialEq, Eq, PartialOrd, Ord, Hash, Structural)]
pub enum ElementState {
    Default,
    Hovered,
    Clicked,
}

/// The interaction record for one widget: its current state and the state it
/// held just before the most recent transition. `previous_state` exists for a
/// single level of rollback — returning a pressed widget to its pre-press
/// state when the button is released — never as a history.
#[derive(Clone, Debug)]
pub struct Element {
    pub id: String,
    pub previous_state: ElementState,
    pub state: ElementState,
}

/// `to_idle`: the state is recorded and cleared back to `Default`.
pub open spec fn spec_to_default(e: Element) -> Element {
    Element { id: e.id, previous_state: e.state, state: ElementState::Default }
}

/// `to_hovered`: entering `Hovered` always records `Default` as the previous
/// state, so a later rollback from a press lands on `Hovered`'s natural
/// predecessor rather than on whatever came before.
pub open spec fn spec_to_hovered(e: Element) -> Element {
    Element { id: e.id, previous_state: ElementState::Default, state: ElementState::Hovered }
}

/// `to_pressed`: the state is recorded and replaced by `Clicked`.
pub open spec fn spec_to_clicked(e: Element) -> Element {
    Element { id: e.id, previous_state: e.state, state: ElementState::Clicked }
}

/// `rollback`: the state returns to whatever was recorded; the record stays.
pub open spec fn spec_roll_back(e: Element) -> Element {
    Element { id: e.id, previous_state: e.previous_state, state: e.previous_state }
}

impl Element {
    /// A freshly seen widget starts idle, with nothing to roll back to.
    pub fn new(id: &str) -> (r: Element)
        ensures
            r.id@ == id@,
            r.previous_state == ElementState::Default,
            r.state == ElementState::Default,
    {
        Element {
            id: id.to_owned(),
            previous_state: ElementState::Default,
            state: ElementState::Default,
        }
    }

    /// Set the element state to whatever it was previously.
    pub fn roll_back(&mut self)
        ensures
            *final(self) == spec_roll_back(*old(self)),
    {
        self.state = self.previous_state;
    }

    /// Set the element state to `ElementState::Default`.
    pub fn default(&mut self)
        ensures
            *final(self) == spec_to_default(*old(self)),
    {
        self.previous_state = self.state;
        self.state = ElementState::Default;
    }

    /// Set the element state to `ElementState::Clicked`.
    pub fn click(&mut self)
        ensures
            *final(self) == spec_to_clicked(*old(self)),
    {
        self.previous_state = self.state;
        self.state = ElementState::Clicked;
    }

    /// Set the element state to `ElementState::Hovered`.
    pub fn hover(&mut self)
        ensures
            *final(self) == spec_to_hovered(*old(self)),
    {
        self.previous_state = ElementState::Default;
        self.state = ElementState::Hovered;
    }
}

// ---------------------------------------------------------------------------
// The dispatch model
//
// The manager's contracts are stated over a mathematical model of one
// dispatch pass: a fold over the layout snapshot, where each node updates the
// element it names and contributes the callback indices it fires, in order.
// ---------------------------------------------------------------------------

/// The index of the first element whose identity is `id`, or `-1` when no
/// element carries it. Lookup always takes the first match, so a registry
/// with a repeated identity behaves as if only the first entry existed.
pub open spec fn spec_find_index(elems: Seq<Element>, id: Seq<char>) -> int
    decreases elems.len(),
{
    if elems.len() == 0 {
        -1
    } else if elems[0].id@ == id {
        0
    } else {
        let r = spec_find_index(elems.drop_first(), id);
        if r < 0 {
            -1
        } else {
            r + 1
        }
    }
}

/// Some element carries the identity `id`.
pub open spec fn spec_has_id(elems: Seq<Element>, id: Seq<char>) -> bool {
    exists|k: int| 0 <= k < elems.len() && elems[k].id@ == id
}

/// `spec_find_index` returns exactly the first match: a valid index with the
/// wanted identity, before which no element carries it, and `-1` only when
/// none does.
pub proof fn lemma_find_index(elems: Seq<Element>, id: Seq<char>)
    ensures
        -1 <= spec_find_index(elems, id) < elems.len(),
        spec_has_id(elems, id) <==> 0 <= spec_find_index(elems, id),
        0 <= spec_find_index(elems, id) ==> elems[spec_find_index(elems, id)].id@ == id,
        forall|k: int|
            0 <= k < spec_find_index(elems, id) ==> (#[trigger] elems[k].id@) != id,
    decreases elems.len(),
{
    if elems.len() == 0 {
    } else if elems[0].id@ == id {
    } else {
        let rest = elems.drop_first();
        lemma_find_index(rest, id);
        assert(forall|k: int| 1 <= k < elems.len() ==> #[trigger] elems[k] == rest[k - 1]);
        let r = spec_find_index(rest, id);
        if r >= 0 {
            assert(elems[r + 1] == rest[r]);
            assert(elems[r + 1].id@ == id);
            assert forall|k: int| 0 <= k < r + 1 implies (#[trigger] elems[k].id@) != id by {
                if k >= 1 {
                    assert(elems[k] == rest[k - 1]);
                    assert(rest[k - 1].id@ != id);
                }
            }
        }
        if spec_has_id(elems, id) {
            let w = choose|k: int| 0 <= k < elems.len() && elems[k].id@ == id;
            assert(rest[w - 1].id@ == id);
            assert(spec_has_id(rest, id));
        }
        if spec_has_id(rest, id) {
            let w = choose|k: int| 0 <= k < rest.len() && rest[k].id@ == id;
            assert(elems[w + 1].id@ == id);
            assert(spec_has_id(elems, id));
        }
    }
}

/// A first match pins `spec_find_index` down.
proof fn lemma_first_match_is_find_index(elems: Seq<Element>, id: Seq<char>, j: int)
    requires
        0 <= j < elems.len(),
        elems[j].id@ == id,
        forall|k: int| 0 <= k < j ==> (#[trigger] elems[k].id@) != id,
    ensures
        spec_find_index(elems, id) == j,
{
    lemma_find_index(elems, id);
    assert(spec_has_id(elems, id));
    let fi = spec_find_index(elems, id);
    if fi < j {
        assert(elems[fi].id@ != id);
    }
    if j < fi {
        assert(elems[j].id@ != id);
    }
}

/// How a pointer-move event changes one element, given whether the pointer
/// now lies inside that widget's bounds: entering from idle hovers it, being
/// inside in any other state changes nothing, and being outside always clears
/// the widget back to idle — a pressed widget loses its press by leaving.
pub open spec fn spec_hover_step(e: Element, inside: bool) -> Element {
    if inside {
        if e.state == ElementState::Default {
            spec_to_hovered(e)
        } else {
            e
        }
    } else {
        spec_to_default(e)
    }
}

/// A pointer-move fires the widget's hover callbacks exactly when it moves
/// the widget from idle to hovered.
pub open spec fn spec_hover_fires(e: Element, inside: bool) -> bool {
    inside && e.state == ElementState::Default
}

/// How a button event changes one element. A press promotes a hovered widget
/// to clicked and leaves every other state alone; a release rolls a pressed
/// widget back to its recorded previous state and is a no-op for every other
/// state. No bounds are re-tested: the decision reads only the tracked state.
pub open spec fn spec_mouse_step(e: Element, pressed: bool) -> Element {
    if pressed {
        if e.state == ElementState::Hovered {
            spec_to_clicked(e)
        } else {
            e
        }
    } else {
        if e.state == ElementState::Clicked {
            spec_roll_back(e)
        } else {
            e
        }
    }
}

/// A button event fires the widget's click callbacks exactly when it presses
/// a hovered widget.
pub open spec fn spec_click_fires(e: Element, pressed: bool) -> bool {
    pressed && e.state == ElementState::Hovered
}

/// The indices, in registration order, of every hover registration for `id`.
pub open spec fn spec_hover_firings(cbs: Seq<EventFn>, id: Seq<char>) -> Seq<usize>
    decreases cbs.len(),
{
    if cbs.len() == 0 {
        Seq::empty()
    } else {
        let rest = spec_hover_firings(cbs.drop_last(), id);
        if spec_hover_matches(cbs.last(), id) {
            rest.push((cbs.len() - 1) as usize)
        } else {
            rest
        }
    }
}

/// The indices, in registration order, of every click registration for `id`.
pub open spec fn spec_click_firings(cbs: Seq<EventFn>, id: Seq<char>) -> Seq<usize>
    decreases cbs.len(),
{
    if cbs.len() == 0 {
        Seq::empty()
    } else {
        let rest = spec_click_firings(cbs.drop_last(), id);
        if spec_click_matches(cbs.last(), id) {
            rest.push((cbs.len() - 1) as usize)
        } else {
            rest
        }
    }
}

/// The element registry after one node of a pointer-move pass.
pub open spec fn spec_moved_node(elems: Seq<Element>, node: LayoutNode, pointer: Position) -> Seq<
    Element,
> {
    let j = spec_find_index(elems, node.id@);
    elems.update(j, spec_hover_step(elems[j], spec_node_contains(node, pointer)))
}

/// The callback indices one node of a pointer-move pass fires.
pub open spec fn spec_moved_node_firings(
    elems: Seq<Element>,
    node: LayoutNode,
    pointer: Position,
    cbs: Seq<EventFn>,
) -> Seq<usize> {
    let j = spec_find_index(elems, node.id@);
    if spec_hover_fires(elems[j], spec_node_contains(node, pointer)) {
        spec_hover_firings(cbs, node.id@)
    } else {
        Seq::empty()
    }
}

/// The element registry after one node of a button pass.
pub open spec fn spec_mouse_node(elems: Seq<Element>, node: LayoutNode, pressed: bool) -> Seq<
    Element,
> {
    let j = spec_find_index(elems, node.id@);
    elems.update(j, spec_mouse_step(elems[j], pressed))
}

/// The callback indices one node of a button pass fires.
pub open spec fn spec_mouse_node_firings(
    elems: Seq<Element>,
    node: LayoutNode,
    pressed: bool,
    cbs: Seq<EventFn>,
) -> Seq<usize> {
    let j = spec_find_index(elems, node.id@);
    if spec_click_fires(elems[j], pressed) {
        spec_click_firings(cbs, node.id@)
    } else {
        Seq::empty()
    }
}

/// The element registry after a whole pointer-move pass: the nodes are
/// processed in snapshot order, each against the registry the nodes before it
/// left behind.
pub open spec fn spec_moved_pass(
    elems: Seq<Element>,
    nodes: Seq<LayoutNode>,
    pointer: Position,
) -> Seq<Element>
    decreases nodes.len(),
{
    if nodes.len() == 0 {
        elems
    } else {
        spec_moved_node(spec_moved_pass(elems, nodes.drop_last(), pointer), nodes.last(), pointer)
    }
}

/// Every callback index a whole pointer-move pass fires, in firing order.
pub open spec fn spec_moved_pass_firings(
    elems: Seq<Element>,
    nodes: Seq<LayoutNode>,
    pointer: Position,
    cbs: Seq<EventFn>,
) -> Seq<usize>
    decreases nodes.len(),
{
    if nodes.len() == 0 {
        Seq::empty()
    } else {
        spec_moved_pass_firings(elems, nodes.drop_last(), pointer, cbs) + spec_moved_node_firings(
            spec_moved_pass(elems, nodes.drop_last(), pointer),
            nodes.last(),
            pointer,
            cbs,
        )
    }
}

/// The element registry after a whole button pass.
pub open spec fn spec_mouse_pass(elems: Seq<Element>, nodes: Seq<LayoutNode>, pressed: bool) -> Seq<
    Element,
>
    decreases nodes.len(),
{
    if nodes.len() == 0 {
        elems
    } else {
        spec_mouse_node(spec_mouse_pass(elems, nodes.drop_last(), pressed), nodes.last(), pressed)
    }
}

/// Every callback index a whole button pass fires, in firing order.
pub open spec fn spec_mouse_pass_firings(
    elems: Seq<Element>,
    nodes: Seq<LayoutNode>,
    pressed: bool,
    cbs: Seq<EventFn>,
) -> Seq<usize>
    decreases nodes.len(),
{
    if nodes.len() == 0 {
        Seq::empty()
    } else {
        spec_mouse_pass_firings(elems, nodes.drop_last(), pressed, cbs) + spec_mouse_node_firings(
            spec_mouse_pass(elems, nodes.drop_last(), pressed),
            nodes.last(),
            pressed,
            cbs,
        )
    }
}

/// Every identity named by the snapshot has an element in the registry.
pub open spec fn spec_covers(elems: Seq<Element>, nodes: Seq<LayoutNode>) -> bool {
    forall|i: int| 0 <= i < nodes.len() ==> spec_has_id(elems, #[trigger] nodes[i].id@)
}

/// The identities a sync appends to a registry: those the snapshot names, in
/// snapshot order, that neither the registry nor an earlier node of the
/// snapshot accounts for — so each missing identity appears exactly once.
pub open spec fn spec_sync_added_ids(elems: Seq<Element>, nodes: Seq<LayoutNode>) -> Seq<Seq<char>>
    decreases nodes.len(),
{
    if nodes.len() == 0 {
        Seq::empty()
    } else {
        let front = spec_sync_added_ids(elems, nodes.drop_last());
        let id = nodes.last().id@;
        if spec_has_id(elems, id) || front.contains(id) {
            front
        } else {
            front.push(id)
        }
    }
}

/// A pointer-move pass never adds, removes or renames elements.
pub proof fn lemma_moved_pass_preserves_ids(
    elems: Seq<Element>,
    nodes: Seq<LayoutNode>,
    pointer: Position,
)
    requires
        spec_covers(elems, nodes),
    ensures
        spec_moved_pass(elems, nodes, pointer).len() == elems.len(),
        forall|k: int|
            0 <= k < elems.len() ==> (#[trigger] spec_moved_pass(elems, nodes, pointer)[k].id@)
                == elems[k].id@,
    decreases nodes.len(),
{
    if nodes.len() == 0 {
    } else {
        let front = nodes.drop_last();
        assert(forall|i: int| 0 <= i < front.len() ==> #[trigger] front[i] == nodes[i]);
        lemma_moved_pass_preserves_ids(elems, front, pointer);
        let mid = spec_moved_pass(elems, front, pointer);
        let id = nodes.last().id@;
        assert(spec_has_id(elems, id));
        let w = choose|k: int| 0 <= k < elems.len() && elems[k].id@ == id;
        assert(mid[w].id@ == id);
        assert(spec_has_id(mid, id));
        lemma_find_index(mid, id);
    }
}

/// A button pass never adds, removes or renames elements.
pub proof fn lemma_mouse_pass_preserves_ids(
    elems: Seq<Element>,
    nodes: Seq<LayoutNode>,
    pressed: bool,
)
    requires
        spec_covers(elems, nodes),
    ensures
        spec_mouse_pass(elems, nodes, pressed).len() == elems.len(),
        forall|k: int|
            0 <= k < elems.len() ==> (#[trigger] spec_mouse_pass(elems, nodes, pressed)[k].id@)
                == elems[k].id@,
    decreases nodes.len(),
{
    if nodes.len() == 0 {
    } else {
        let front = nodes.drop_last();
        assert(forall|i: int| 0 <= i < front.len() ==> #[trigger] front[i] == nodes[i]);
        lemma_mouse_pass_preserves_ids(elems, front, pressed);
        let mid = spec_mouse_pass(elems, front, pressed);
        let id = nodes.last().id@;
        assert(spec_has_id(elems, id));
        let w = choose|k: int| 0 <= k < elems.len() && elems[k].id@ == id;
        assert(mid[w].id@ == id);
        assert(spec_has_id(mid, id));
        lemma_find_index(mid, id);
    }
}

/// Appending one registration to the prefix under consideration appends its
/// index to the hover firing list exactly when it matches.
proof fn lemma_hover_firings_step(cbs: Seq<EventFn>, id: Seq<char>, k: int)
    requires
        0 <= k < cbs.len(),
    ensures
        spec_hover_firings(cbs.take(k + 1), id) == spec_hover_firings(cbs.take(k), id) + (
        if spec_hover_matches(cbs[k], id) {
            seq![k as usize]
        } else {
            Seq::<usize>::empty()
        }),
{
    assert(cbs.take(k + 1).drop_last() =~= cbs.take(k));
    assert(cbs.take(k + 1).last() == cbs[k]);
    let rest = spec_hover_firings(cbs.take(k), id);
    if spec_hover_matches(cbs[k], id) {
        assert(rest.push(k as usize) =~= rest + seq![k as usize]);
    } else {
        assert(rest =~= rest + Seq::<usize>::empty());
    }
}

/// The click counterpart of `lemma_hover_firings_step`.
proof fn lemma_click_firings_step(cbs: Seq<EventFn>, id: Seq<char>, k: int)
    requires
        0 <= k < cbs.len(),
    ensures
        spec_click_firings(cbs.take(k + 1), id) == spec_click_firings(cbs.take(k), id) + (
        if spec_click_matches(cbs[k], id) {
            seq![k as usize]
        } else {
            Seq::<usize>::empty()
        }),
{
    assert(cbs.take(k + 1).drop_last() =~= cbs.take(k));
    assert(cbs.take(k + 1).last() == cbs[k]);
    let rest = spec_click_firings(cbs.take(k), id);
    if spec_click_matches(cbs[k], id) {
        assert(rest.push(k as usize) =~= rest + seq![k as usize]);
    } else {
        assert(rest =~= rest + Seq::<usize>::empty());
    }
}

// ---------------------------------------------------------------------------
// The event manager
// ---------------------------------------------------------------------------

/// The index of the first element carrying `id`, if any, with nothing before
/// it that matches.
fn find_element_index(elements: &Vec<Element>, id: &String) -> (r: Option<usize>)
    ensures
        match r {
            Some(j) => 0 <= j < elements@.len() && elements@[j as int].id@ == id@ && forall|k: int|
                0 <= k < j ==> (#[trigger] elements@[k].id@) != id@,
            None => !spec_has_id(elements@, id@),
        },
{
    let mut i: usize = 0;
    while i < elements.len()
        invariant
            i <= elements@.len(),
            forall|k: int| 0 <= k < i ==> (#[trigger] elements@[k].id@) != id@,
        decreases elements@.len() - i,
    {
        if elements[i].id == *id {
            return Some(i);
        }
        i += 1;
    }
    None
}

/// Tracks the interaction state of every widget in the layout snapshot it
/// was built from, and turns raw window events into state transitions and
/// callback firings.
#[derive(Debug)]
pub struct EventManager {
    /// The last pointer position seen; button events are decided against the
    /// states this position produced, without re-testing bounds.
    pub mouse_pos: Position,
    /// One record per widget of the snapshot, in snapshot order.
    pub elements: Vec<Element>,
    /// The callback registrations, in registration order.
    pub callbacks: Vec<EventFn>,
}

impl EventManager {
    /// Builds the registry for a snapshot: one idle element per node, in
    /// snapshot order, with the pointer at the origin.
    pub fn new(cx: EventContext, layout: &Vec<LayoutNode>) -> (r: EventManager)
        ensures
            r.mouse_pos == (Position { x: 0, y: 0 }),
            r.callbacks@ == cx.callbacks@,
            r.elements@.len() == layout@.len(),
            forall|i: int|
                0 <= i < layout@.len() ==> (#[trigger] r.elements@[i].id@) == layout@[i].id@
                    && r.elements@[i].state == ElementState::Default
                    && r.elements@[i].previous_state == ElementState::Default,
    {
        let mut elements: Vec<Element> = Vec::new();
        let mut i: usize = 0;
        while i < layout.len()
            invariant
                i <= layout@.len(),
                elements@.len() == i,
                forall|k: int|
                    #![trigger elements@[k]]
                    0 <= k < i ==> elements@[k].id@ == layout@[k].id@ && elements@[k].state
                        == ElementState::Default && elements@[k].previous_state
                        == ElementState::Default,
            decreases layout@.len() - i,
        {
            let ghost prev = elements@;
            let e = Element::new(layout[i].id.as_str());
            elements.push(e);
            proof {
                assert(elements@[i as int] == e);
                assert forall|k: int|
                    #![trigger elements@[k]]
                    0 <= k < i + 1 implies elements@[k].id@ == layout@[k].id@ && elements@[k].state
                    == ElementState::Default && elements@[k].previous_state
                    == ElementState::Default by {
                    if k < i {
                        assert(elements@[k] == prev[k]);
                        assert(prev[k].id@ == layout@[k].id@);
                    } else {
                        assert(elements@[k] == e);
                    }
                }
            }
            i += 1;
        }
        EventManager { mouse_pos: Position::default(), elements, callbacks: cx.callbacks }
    }

    /// Brings the registry up to date with a snapshot: every identity the
    /// snapshot names and the registry does not yet track gets a fresh idle
    /// element, appended in snapshot order, each exactly once. Elements
    /// already tracked are kept untouched, so states survive across frames;
    /// after a sync the registry covers the snapshot and dispatch cannot meet
    /// an unknown widget.
    pub fn sync(&mut self, layout: &Vec<LayoutNode>)
        ensures
            final(self).mouse_pos == old(self).mouse_pos,
            final(self).callbacks@ == old(self).callbacks@,
            forall|k: int|
                0 <= k < old(self).elements@.len() ==> (#[trigger] final(self).elements@[k])
                    == old(self).elements@[k],
            forall|k: int|
                #![trigger final(self).elements@[k]]
                old(self).elements@.len() <= k < final(self).elements@.len()
                    ==> final(self).elements@[k].state == ElementState::Default
                    && final(self).elements@[k].previous_state == ElementState::Default,
            final(self).elements@.len() == old(self).elements@.len() + spec_sync_added_ids(
                old(self).elements@,
                layout@,
            ).len(),
            forall|k: int|
                0 <= k < spec_sync_added_ids(old(self).elements@, layout@).len() ==> (
                #[trigger] final(self).elements@[old(self).elements@.len() + k].id@)
                    == spec_sync_added_ids(old(self).elements@, layout@)[k],
            spec_covers(final(self).elements@, layout@),
    {
        let ghost n0 = old(self).elements@.len() as int;
        let mut i: usize = 0;
        proof {
            assert(layout@.take(0) =~= Seq::<LayoutNode>::empty());
        }
        while i < layout.len()
            invariant
                i <= layout@.len(),
                self.mouse_pos == old(self).mouse_pos,
                self.callbacks@ == old(self).callbacks@,
                n0 == old(self).elements@.len(),
                forall|k: int|
                    0 <= k < n0 ==> (#[trigger] self.elements@[k]) == old(self).elements@[k],
                forall|k: int|
                    #![trigger self.elements@[k]]
                    n0 <= k < self.elements@.len() ==> self.elements@[k].state
                        == ElementState::Default && self.elements@[k].previous_state
                        == ElementState::Default,
                self.elements@.len() == n0 + spec_sync_added_ids(
                    old(self).elements@,
                    layout@.take(i as int),
                ).len(),
                forall|k: int|
                    0 <= k < self.elements@.len() - n0 ==> (#[trigger] self.elements@[n0
                        + k].id@) == spec_sync_added_ids(
                        old(self).elements@,
                        layout@.take(i as int),
                    )[k],
                forall|m: int| 0 <= m < i ==> spec_has_id(self.elements@, #[trigger] layout@[m].id@),
            decreases layout@.len() - i,
        {
            let ghost prev = self.elements@;
            let ghost added = spec_sync_added_ids(old(self).elements@, layout@.take(i as int));
            let ghost id = layout@[i as int].id@;
            proof {
                assert(layout@.take(i + 1).drop_last() =~= layout@.take(i as int));
                assert(layout@.take(i + 1).last() == layout@[i as int]);
            }
            match find_element_index(&self.elements, &layout[i].id) {
                Some(j) => {
                    proof {
                        assert(spec_has_id(self.elements@, id));
                        // The identity is already accounted for, either by an
                        // original element or by one appended earlier.
                        if j < n0 {
                            assert(old(self).elements@[j as int].id@ == id);
                            assert(spec_has_id(old(self).elements@, id));
                        } else {
                            assert(self.elements@[n0 + (j - n0)].id@ == added[j - n0]);
                            assert(added[j - n0] == id);
                            assert(added.contains(id));
                        }
                        assert(spec_sync_added_ids(old(self).elements@, layout@.take(i + 1))
                            == added);
                    }
                },
                None => {
                    let e = Element::new(layout[i].id.as_str());
                    self.elements.push(e);
                    proof {
                        assert(self.elements@[prev.len() as int] == e);
                        assert(spec_has_id(self.elements@, id));
                        // Untracked on both counts: no original element holds
                        // the identity, and none appended so far does either.
                        assert(!spec_has_id(old(self).elements@, id)) by {
                            if spec_has_id(old(self).elements@, id) {
                                let w = choose|k: int|
                                    0 <= k < n0 && old(self).elements@[k].id@ == id;
                                assert(prev[w].id@ == id);
                                assert(spec_has_id(prev, id));
                            }
                        }
                        assert(!added.contains(id)) by {
                            if added.contains(id) {
                                let m = choose|k: int| 0 <= k < added.len() && added[k] == id;
                                assert(prev[n0 + m].id@ == id);
                                assert(spec_has_id(prev, id));
                            }
                        }
                        assert(spec_sync_added_ids(old(self).elements@, layout@.take(i + 1))
                            == added.push(id));
                        assert forall|m: int|
                            0 <= m < i implies spec_has_id(
                            self.elements@,
                            #[trigger] layout@[m].id@,
                        ) by {
                            let w = choose|k: int|
                                0 <= k < prev.len() && prev[k].id@ == layout@[m].id@;
                            assert(self.elements@[w] == prev[w]);
                        }
                    }
                },
            }
            i += 1;
        }
        proof {
            assert(layout@.take(layout@.len() as int) =~= layout@);
        }
    }

    /// One node of a pointer-move pass: hit-test the node against the stored
    /// pointer position and apply the hover rules to its element, appending
    /// the indices of the callbacks that fired.
    fn process_hover(&mut self, node: &LayoutNode, fired: &mut Vec<usize>)
        requires
            spec_has_id(old(self).elements@, node.id@),
        ensures
            final(self).mouse_pos == old(self).mouse_pos,
            final(self).callbacks@ == old(self).callbacks@,
            final(self).elements@ == spec_moved_node(
                old(self).elements@,
                *node,
                old(self).mouse_pos,
            ),
            final(fired)@ == old(fired)@ + spec_moved_node_firings(
                old(self).elements@,
                *node,
                old(self).mouse_pos,
                old(self).callbacks@,
            ),
    {
        let bounds = node.bounds();
        let inside = bounds.within(&self.mouse_pos);
        let j = find_element_index(&self.elements, &node.id).unwrap();
        proof {
            lemma_first_match_is_find_index(self.elements@, node.id@, j as int);
        }
        let ghost elems0 = self.elements@;
        let ghost fired0 = fired@;
        if inside {
            match self.elements[j].state {
                ElementState::Default => {
                    self.elements[j].hover();
                    let mut k: usize = 0;
                    while k < self.callbacks.len()
                        invariant
                            k <= self.callbacks@.len(),
                            self.mouse_pos == old(self).mouse_pos,
                            self.callbacks@ == old(self).callbacks@,
                            self.elements@ == elems0.update(
                                spec_find_index(elems0, node.id@),
                                spec_to_hovered(elems0[spec_find_index(elems0, node.id@)]),
                            ),
                            fired@ == fired0 + spec_hover_firings(
                                self.callbacks@.take(k as int),
                                node.id@,
                            ),
                        decreases self.callbacks@.len() - k,
                    {
                        if self.callbacks[k].run_hover(node.id.as_str()) {
                            fired.push(k);
                        }
                        proof {
                            lemma_hover_firings_step(self.callbacks@, node.id@, k as int);
                            assert(fired@ =~= fired0 + spec_hover_firings(
                                self.callbacks@.take(k + 1),
                                node.id@,
                            ));
                        }
                        k += 1;
                    }
                    proof {
                        assert(self.callbacks@.take(self.callbacks@.len() as int)
                            =~= self.callbacks@);
                    }
                },
                _ => {
                    proof {
                        let j0 = spec_find_index(elems0, node.id@);
                        assert(elems0.update(j0, spec_hover_step(elems0[j0], true)) =~= elems0);
                        assert(fired@ =~= fired0 + Seq::<usize>::empty());
                    }
                },
            }
        } else {
            self.elements[j].default();
            proof {
                assert(fired@ =~= fired0 + Seq::<usize>::empty());
            }
        }
    }

    /// One node of a button pass: no bounds are tested; the element's tracked
    /// state alone decides, per the press and release rules.
    fn process_mouse(
        &mut self,
        node: &LayoutNode,
        state: &ButtonState,
        button: &MouseButton,
        fired: &mut Vec<usize>,
    )
        requires
            spec_has_id(old(self).elements@, node.id@),
        ensures
            final(self).mouse_pos == old(self).mouse_pos,
            final(self).callbacks@ == old(self).callbacks@,
            final(self).elements@ == spec_mouse_node(
                old(self).elements@,
                *node,
                *state == ButtonState::Pressed,
            ),
            final(fired)@ == old(fired)@ + spec_mouse_node_firings(
                old(self).elements@,
                *node,
                *state == ButtonState::Pressed,
                old(self).callbacks@,
            ),
    {
        let _ = button;
        let j = find_element_index(&self.elements, &node.id).unwrap();
        proof {
            lemma_first_match_is_find_index(self.elements@, node.id@, j as int);
        }
        let ghost elems0 = self.elements@;
        let ghost fired0 = fired@;
        match state {
            ButtonState::Pressed => {
                match self.elements[j].state {
                    ElementState::Hovered => {
                        self.elements[j].click();
                        let mut k: usize = 0;
                        while k < self.callbacks.len()
                            invariant
                                k <= self.callbacks@.len(),
                                self.mouse_pos == old(self).mouse_pos,
                                self.callbacks@ == old(self).callbacks@,
                                self.elements@ == elems0.update(
                                    spec_find_index(elems0, node.id@),
                                    spec_to_clicked(elems0[spec_find_index(elems0, node.id@)]),
                                ),
                                fired@ == fired0 + spec_click_firings(
                                    self.callbacks@.take(k as int),
                                    node.id@,
                                ),
                            decreases self.callbacks@.len() - k,
                        {
                            if self.callbacks[k].run_click(node.id.as_str()) {
                                fired.push(k);
                            }
                            proof {
                                lemma_click_firings_step(self.callbacks@, node.id@, k as int);
                                assert(fired@ =~= fired0 + spec_click_firings(
                                    self.callbacks@.take(k + 1),
                                    node.id@,
                                ));
                            }
                            k += 1;
                        }
                        proof {
                            assert(self.callbacks@.take(self.callbacks@.len() as int)
                                =~= self.callbacks@);
                        }
                    },
                    _ => {
                        proof {
                            let j0 = spec_find_index(elems0, node.id@);
                            assert(elems0.update(j0, spec_mouse_step(elems0[j0], true))
                                =~= elems0);
                            assert(fired@ =~= fired0 + Seq::<usize>::empty());
                        }
                    },
                }
            },
            ButtonState::Released => {
                match self.elements[j].state {
                    ElementState::Clicked => {
                        self.elements[j].roll_back();
                    },
                    _ => {
                        proof {
                            let j0 = spec_find_index(elems0, node.id@);
                            assert(elems0.update(j0, spec_mouse_step(elems0[j0], false))
                                =~= elems0);
                        }
                    },
                }
                proof {
                    assert(fired@ =~= fired0 + Seq::<usize>::empty());
                }
            },
        }
    }

    /// Process one incoming window event against the given layout snapshot.
    ///
    /// A cursor move records the new pointer position and hit-tests every
    /// node against it; a button event applies the press or release rules to
    /// every node; any other event is ignored. The result is the list of
    /// callback indices that fired, in firing order — the caller runs the
    /// registered actions, kept in registration order, for each index in
    /// turn.
    ///
    /// Looking up a widget the registry does not track is a contract
    /// violation, so dispatch requires every identity the snapshot names to
    /// be tracked already; a [`Self::sync`] against the same snapshot
    /// establishes exactly that.
    pub fn process(&mut self, event: &WindowEvent, layout: &Vec<LayoutNode>) -> (fired: Vec<usize>)
        requires
            !(event is KeyboardInput) ==> spec_covers(old(self).elements@, layout@),
        ensures
            match *event {
                WindowEvent::CursorMoved { position } => {
                    &&& final(self).mouse_pos == position
                    &&& final(self).callbacks@ == old(self).callbacks@
                    &&& final(self).elements@ == spec_moved_pass(
                        old(self).elements@,
                        layout@,
                        position,
                    )
                    &&& fired@ == spec_moved_pass_firings(
                        old(self).elements@,
                        layout@,
                        position,
                        old(self).callbacks@,
                    )
                },
                WindowEvent::MouseInput { state, button: _ } => {
                    &&& final(self).mouse_pos == old(self).mouse_pos
                    &&& final(self).callbacks@ == old(self).callbacks@
                    &&& final(self).elements@ == spec_mouse_pass(
                        old(self).elements@,
                        layout@,
                        state == ButtonState::Pressed,
                    )
                    &&& fired@ == spec_mouse_pass_firings(
                        old(self).elements@,
                        layout@,
                        state == ButtonState::Pressed,
                        old(self).callbacks@,
                    )
                },
                WindowEvent::KeyboardInput { .. } => {
                    &&& *final(self) == *old(self)
                    &&& fired@ == Seq::<usize>::empty()
                },
            },
    {
        let mut fired: Vec<usize> = Vec::new();
        match event {
            WindowEvent::CursorMoved { position } => {
                self.mouse_pos = *position;
                let ghost elems0 = self.elements@;
                let mut i: usize = 0;
                while i < layout.len()
                    invariant
                        i <= layout@.len(),
                        spec_covers(elems0, layout@),
                        self.mouse_pos == *position,
                        self.callbacks@ == old(self).callbacks@,
                        self.elements@ == spec_moved_pass(elems0, layout@.take(i as int), *position),
                        fired@ == spec_moved_pass_firings(
                            elems0,
                            layout@.take(i as int),
                            *position,
                            old(self).callbacks@,
                        ),
                    decreases layout@.len() - i,
                {
                    proof {
                        let prefix = layout@.take(i as int);
                        assert(forall|m: int|
                            0 <= m < prefix.len() ==> #[trigger] prefix[m] == layout@[m]);
                        assert(spec_covers(elems0, prefix));
                        lemma_moved_pass_preserves_ids(elems0, prefix, *position);
                        let id = layout@[i as int].id@;
                        assert(spec_has_id(elems0, id));
                        let w = choose|k: int| 0 <= k < elems0.len() && elems0[k].id@ == id;
                        assert(self.elements@[w].id@ == id);
                        assert(spec_has_id(self.elements@, id));
                    }
                    let ghost before = self.elements@;
                    let ghost fired_before = fired@;
                    self.process_hover(&layout[i], &mut fired);
                    proof {
                        let next = layout@.take(i + 1);
                        assert(next.drop_last() =~= layout@.take(i as int));
                        assert(next.last() == layout@[i as int]);
                        assert(self.elements@ == spec_moved_pass(elems0, next, *position));
                        assert(fired@ =~= spec_moved_pass_firings(
                            elems0,
                            next,
                            *position,
                            old(self).callbacks@,
                        ));
                    }
                    i += 1;
                }
                proof {
                    assert(layout@.take(layout@.len() as int) =~= layout@);
                }
            },
            WindowEvent::MouseInput { state, button } => {
                let ghost elems0 = self.elements@;
                let ghost pressed = (*state == ButtonState::Pressed);
                let mut i: usize = 0;
                while i < layout.len()
                    invariant
                        i <= layout@.len(),
                        spec_covers(elems0, layout@),
                        self.mouse_pos == old(self).mouse_pos,
                        self.callbacks@ == old(self).callbacks@,
                        pressed == (*state == ButtonState::Pressed),
                        self.elements@ == spec_mouse_pass(elems0, layout@.take(i as int), pressed),
                        fired@ == spec_mouse_pass_firings(
                            elems0,
                            layout@.take(i as int),
                            pressed,
                            old(self).callbacks@,
                        ),
                    decreases layout@.len() - i,
                {
                    proof {
                        let prefix = layout@.take(i as int);
                        assert(forall|m: int|
                            0 <= m < prefix.len() ==> #[trigger] prefix[m] == layout@[m]);
                        assert(spec_covers(elems0, prefix));
                        lemma_mouse_pass_preserves_ids(elems0, prefix, pressed);
                        let id = layout@[i as int].id@;
                        assert(spec_has_id(elems0, id));
                        let w = choose|k: int| 0 <= k < elems0.len() && elems0[k].id@ == id;
                        assert(self.elements@[w].id@ == id);
                        assert(spec_has_id(self.elements@, id));
                    }
                    self.process_mouse(&layout[i], state, button, &mut fired);
                    proof {
                        let next = layout@.take(i + 1);
                        assert(next.drop_last() =~= layout@.take(i as int));
                        assert(next.last() == layout@[i as int]);
                        assert(self.elements@ == spec_mouse_pass(elems0, next, pressed));
                        assert(fired@ =~= spec_mouse_pass_firings(
                            elems0,
                            next,
                            pressed,
                            old(self).callbacks@,
                        ));
                    }
                    i += 1;
                }
                proof {
                    assert(layout@.take(layout@.len() as int) =~= layout@);
                }
            },
            WindowEvent::KeyboardInput { .. } => {},
        }
        fired
    }
}

} // verus!
