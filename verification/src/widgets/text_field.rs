use vstd::prelude::*;
use vstd::string::StrSliceExecFns;
use vstd::string::StringExecFns;

use crate::colors::Color;
use crate::events::Key;
use crate::widgets::container::Widget;
use crate::widgets::container::WidgetBody;
use crate::events::NamedKey;
use crate::geometry::Position;
use crate::geometry::Size;
use crate::ident::fresh_widget_id;
use crate::layout::LayoutNode;

verus! {

/// What one key does to a text field's content: characters and the space key
/// append, backspace removes the last character (of nothing, nothing), and
/// any other named key leaves the text alone.
pub open spec fn spec_key_edit(text: Seq<char>, key: Key) -> Seq<char> {
    match key {
        Key::Character(c) => text + c@,
        Key::Named(NamedKey::Backspace) => if text.len() > 0 {
            text.drop_last()
        } else {
            text
        },
        Key::Named(NamedKey::Space) => text.push(' '),
        Key::Named(_) => text,
    }
}

/// Contains editable text. Key input reaches the text only while the field
/// is focused; a click focuses it, and `unfocus` takes the focus away.
#[derive(Debug)]
pub struct TextField {
    pub id: String,
    pub text: String,
    pub focused: bool,
    /// The background color when this widget is focused.
    pub focus_background_color: Color,
    pub background_color: Color,
    pub corner_radius: u32,
}

impl TextField {
    /// A fresh, unfocused, empty field with a newly generated identity.
    pub fn new() -> (r: TextField)
        ensures
            r.id@.len() == 21,
            r.text@ == Seq::<char>::empty(),
            !r.focused,
            r.focus_background_color == (Color::Rgb(229, 229, 229)),
            r.background_color == (Color::Rgb(245, 245, 245)),
            r.corner_radius == 0,
    {
        TextField {
            id: fresh_widget_id(),
            text: String::new(),
            focused: false,
            focus_background_color: crate::colors::neutral200(),
            background_color: crate::colors::neutral100(),
            corner_radius: 0,
        }
    }

    /// Accepts a click action. The action is not stored here: the embedder
    /// keeps actions beside its `EventContext` registrations and runs them
    /// for the indices the dispatcher reports, so this widget-side hook has
    /// nothing to hold and returns the field unchanged.
    pub fn on_click<F: FnMut()>(self, f: F) -> (r: TextField)
        ensures
            r == self,
    {
        let _ = f;
        self
    }

    pub fn corner_radius(self, corner_radius: u32) -> (r: TextField)
        ensures
            r == (TextField { corner_radius, ..self }),
    {
        let mut s = self;
        s.corner_radius = corner_radius;
        s
    }

    /// Set the background color of the [`TextField`] when it is focused.
    pub fn focus_background_color(self, focus_background_color: Color) -> (r: TextField)
        ensures
            r == (TextField { focus_background_color, ..self }),
    {
        let mut s = self;
        s.focus_background_color = focus_background_color;
        s
    }

    /// Set the background color of the [`TextField`].
    pub fn background_color(self, background_color: Color) -> (r: TextField)
        ensures
            r == (TextField { background_color, ..self }),
    {
        let mut s = self;
        s.background_color = background_color;
        s
    }

    pub fn unfocus(&mut self)
        ensures
            *final(self) == (TextField { focused: false, ..*old(self) }),
    {
        self.focused = false;
    }

    /// A click focuses the field.
    pub fn click(&mut self)
        ensures
            *final(self) == (TextField { focused: true, ..*old(self) }),
    {
        self.focused = true;
    }

    /// Feed one key to the field: ignored entirely while unfocused, and
    /// otherwise edits the text as [`spec_key_edit`] says.
    pub fn process_key(&mut self, key: &Key)
        ensures
            !old(self).focused ==> *final(self) == *old(self),
            final(self).id == old(self).id,
            final(self).focused == old(self).focused,
            final(self).focus_background_color == old(self).focus_background_color,
            final(self).background_color == old(self).background_color,
            final(self).corner_radius == old(self).corner_radius,
            old(self).focused ==> final(self).text@ == spec_key_edit(old(self).text@, *key),
    {
        if !self.focused {
            return ;
        }
        match key {
            Key::Character(character) => {
                self.text.append(character.as_str());
            },
            Key::Named(named_key) => match named_key {
                NamedKey::Backspace => {
                    let n = self.text.as_str().unicode_len();
                    if n > 0 {
                        let shortened = self.text.as_str().substring_char(0, n - 1).to_owned();
                        proof {
                            assert(shortened@ =~= old(self).text@.drop_last());
                        }
                        self.text = shortened;
                    }
                },
                NamedKey::Space => {
                    self.text.append(" ");
                    proof {
                        reveal_strlit(" ");
                        assert(self.text@ =~= old(self).text@.push(' '));
                    }
                },
                _ => {},
            },
        }
    }

    /// The widget's identity, as the event system refers to it.
    pub fn id(&self) -> (r: &str)
        ensures
            r@ == self.id@,
    {
        self.id.as_str()
    }

    /// The node this field contributes to the layout snapshot: its identity,
    /// with no intrinsic geometry of its own — the layout pass decides.
    pub fn layout(&self) -> (r: LayoutNode)
        ensures
            r.id@ == self.id@,
            r.position == (Position { x: 0, y: 0 }),
            r.size == (Size { width: 0, height: 0 }),
    {
        LayoutNode::new(self.id.as_str(), Position::new(0, 0), Size::new(0, 0))
    }
}

impl Widget for TextField {
    open spec fn spec_id(&self) -> Seq<char> {
        self.id@
    }

    /// A text field's body: its resting background, no padding, no children.
    fn build(&self) -> (r: WidgetBody)
        ensures
            r.color == self.background_color,
            r.padding == 0,
            r.children@.len() == 0,
    {
        WidgetBody {
            id: self.id.clone(),
            color: self.background_color,
            padding: 0,
            children: Vec::new(),
        }
    }
}

} // verus!
