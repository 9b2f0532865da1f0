//! Control events and the exact sequence of primitive injection operations
//! each one dispatches to. The single worker that owns the OS input resource
//! replays these operations strictly in order, one event fully applied
//! before the next is read.

use vstd::prelude::*;

verus! {

/// Directional-pad press.
#[derive(Clone, Copy, PartialEq, Eq, Structural, Debug)]
pub enum DPadDirection {
    Up,
    Down,
    Left,
    Right,
    Enter,
    Exit,
}

/// Single named key press.
#[derive(Clone, Copy, PartialEq, Eq, Structural, Debug)]
pub enum Key {
    Backspace,
}

/// Mouse button named by a control frame.
#[derive(Clone, Copy, PartialEq, Eq, Structural, Debug)]
pub enum MouseButton {
    LeftButton,
    RightButton,
    MiddleButton,
}

/// Named high-level action.
#[derive(Clone, Copy, PartialEq, Eq, Structural, Debug)]
pub enum Action {
    Home,
    AltTab,
}

/// A relative mouse delta as decoded from a frame: either a whole number of
/// pixels, or a value no pixel count can represent (too large, after
/// rounding, for the platform's coordinate type). An unrepresentable delta
/// is decoded but dropped silently at dispatch.
#[derive(Clone, Copy, PartialEq, Eq, Structural, Debug)]
pub enum MouseDelta {
    Px(i32),
    Unrepresentable,
}

/// One decoded control event.
pub enum RemoteControlEvent {
    DPad(DPadDirection),
    Text(String),
    Keyboard(Key),
    MouseMove { dx: MouseDelta, dy: MouseDelta },
    MouseDown(MouseButton),
    MouseUp(MouseButton),
    MouseClick(MouseButton),
    MouseScroll { dx: MouseDelta, dy: MouseDelta },
    Action(Action),
}

/// Mathematical form of a control event: text as its character sequence.
pub enum EventView {
    DPad(DPadDirection),
    Text(Seq<char>),
    Keyboard(Key),
    MouseMove { dx: MouseDelta, dy: MouseDelta },
    MouseDown(MouseButton),
    MouseUp(MouseButton),
    MouseClick(MouseButton),
    MouseScroll { dx: MouseDelta, dy: MouseDelta },
    Action(Action),
}

impl View for RemoteControlEvent {
    type V = EventView;

    open spec fn view(&self) -> EventView {
        match self {
            RemoteControlEvent::DPad(d) => EventView::DPad(*d),
            RemoteControlEvent::Text(t) => EventView::Text(t@),
            RemoteControlEvent::Keyboard(k) => EventView::Keyboard(*k),
            RemoteControlEvent::MouseMove { dx, dy } => EventView::MouseMove {
                dx: *dx,
                dy: *dy,
            },
            RemoteControlEvent::MouseDown(b) => EventView::MouseDown(*b),
            RemoteControlEvent::MouseUp(b) => EventView::MouseUp(*b),
            RemoteControlEvent::MouseClick(b) => EventView::MouseClick(*b),
            RemoteControlEvent::MouseScroll { dx, dy } => EventView::MouseScroll {
                dx: *dx,
                dy: *dy,
            },
            RemoteControlEvent::Action(a) => EventView::Action(*a),
        }
    }
}

impl Clone for RemoteControlEvent {
    fn clone(&self) -> (r: Self)
        ensures
            r == *self,
    {
        match self {
            RemoteControlEvent::DPad(d) => RemoteControlEvent::DPad(*d),
            RemoteControlEvent::Text(t) => RemoteControlEvent::Text(t.clone()),
            RemoteControlEvent::Keyboard(k) => RemoteControlEvent::Keyboard(*k),
            RemoteControlEvent::MouseMove { dx, dy } => RemoteControlEvent::MouseMove {
                dx: *dx,
                dy: *dy,
            },
            RemoteControlEvent::MouseDown(b) => RemoteControlEvent::MouseDown(*b),
            RemoteControlEvent::MouseUp(b) => RemoteControlEvent::MouseUp(*b),
            RemoteControlEvent::MouseClick(b) => RemoteControlEvent::MouseClick(*b),
            RemoteControlEvent::MouseScroll { dx, dy } => RemoteControlEvent::MouseScroll {
                dx: *dx,
                dy: *dy,
            },
            RemoteControlEvent::Action(a) => RemoteControlEvent::Action(*a),
        }
    }
}

/// Key on the injection side, mirroring what the OS worker can press.
#[derive(Clone, Copy, PartialEq, Eq, Structural, Debug)]
pub enum InjectionKey {
    UpArrow,
    DownArrow,
    LeftArrow,
    RightArrow,
    Space,
    Escape,
    ReturnOrEnter,
    DeleteOrBackspace,
    Alt,
    Tab,
}

/// One primitive operation on the OS input resource.
#[derive(Clone, Copy, PartialEq, Eq, Structural, Debug)]
pub enum InjectionOp {
    KeyClick(InjectionKey),
    KeyDown(InjectionKey),
    KeyUp(InjectionKey),
    UnicodeChar(char),
    MouseMoveRel(i32, i32),
    MouseDown(MouseButton),
    MouseUp(MouseButton),
    MouseClick(MouseButton),
    MouseScrollRel(i32, i32),
}

/// Navigation key a directional-pad press maps to.
pub open spec fn dpad_key(d: DPadDirection) -> InjectionKey {
    match d {
        DPadDirection::Up => InjectionKey::UpArrow,
        DPadDirection::Down => InjectionKey::DownArrow,
        DPadDirection::Left => InjectionKey::LeftArrow,
        DPadDirection::Right => InjectionKey::RightArrow,
        DPadDirection::Enter => InjectionKey::Space,
        DPadDirection::Exit => InjectionKey::Escape,
    }
}

/// Operation one literal character types: a newline becomes an enter
/// keypress, every other character is typed as itself.
pub open spec fn char_op(c: char) -> InjectionOp {
    if c == '\n' {
        InjectionOp::KeyClick(InjectionKey::ReturnOrEnter)
    } else {
        InjectionOp::UnicodeChar(c)
    }
}

/// Operations for literal text: one per character, strictly in text order.
pub open spec fn text_ops(s: Seq<char>) -> Seq<InjectionOp> {
    Seq::new(s.len(), |i: int| char_op(s[i]))
}

/// The operations one decoded event dispatches, in order. A mouse move or
/// scroll with any unrepresentable delta dispatches nothing; an unassigned
/// action dispatches nothing.
pub open spec fn event_ops(e: RemoteControlEvent) -> Seq<InjectionOp> {
    match e {
        RemoteControlEvent::DPad(d) => seq![InjectionOp::KeyClick(dpad_key(d))],
        RemoteControlEvent::Text(t) => text_ops(t@),
        RemoteControlEvent::Keyboard(Key::Backspace) => seq![
            InjectionOp::KeyClick(InjectionKey::DeleteOrBackspace),
        ],
        RemoteControlEvent::MouseMove { dx: MouseDelta::Px(a), dy: MouseDelta::Px(b) } => seq![
            InjectionOp::MouseMoveRel(a, b),
        ],
        RemoteControlEvent::MouseMove { .. } => Seq::empty(),
        RemoteControlEvent::MouseDown(b) => seq![InjectionOp::MouseDown(b)],
        RemoteControlEvent::MouseUp(b) => seq![InjectionOp::MouseUp(b)],
        RemoteControlEvent::MouseClick(b) => seq![InjectionOp::MouseClick(b)],
        RemoteControlEvent::MouseScroll { dx: MouseDelta::Px(a), dy: MouseDelta::Px(b) } => seq![
            InjectionOp::MouseScrollRel(a, b),
        ],
        RemoteControlEvent::MouseScroll { .. } => Seq::empty(),
        RemoteControlEvent::Action(Action::Home) => Seq::empty(),
        RemoteControlEvent::Action(Action::AltTab) => seq![
            InjectionOp::KeyDown(InjectionKey::Alt),
            InjectionOp::KeyClick(InjectionKey::Tab),
            InjectionOp::KeyUp(InjectionKey::Alt),
        ],
    }
}

/// Compile one event to its primitive operations.
pub fn injection_ops(e: &RemoteControlEvent) -> (r: Vec<InjectionOp>)
    ensures
        r@ == event_ops(*e),
{
    match e {
        RemoteControlEvent::DPad(d) => {
            let key = match d {
                DPadDirection::Up => InjectionKey::UpArrow,
                DPadDirection::Down => InjectionKey::DownArrow,
                DPadDirection::Left => InjectionKey::LeftArrow,
                DPadDirection::Right => InjectionKey::RightArrow,
                DPadDirection::Enter => InjectionKey::Space,
                DPadDirection::Exit => InjectionKey::Escape,
            };
            let mut r: Vec<InjectionOp> = Vec::new();
            r.push(InjectionOp::KeyClick(key));
            proof {
                assert(r@ =~= event_ops(*e));
            }
            r
        },
        RemoteControlEvent::Text(t) => {
            let s = t.as_str();
            let len = s.unicode_len();
            let mut r: Vec<InjectionOp> = Vec::new();
            let mut i: usize = 0;
            while i < len
                invariant
                    len == t@.len(),
                    s@ == t@,
                    i <= len,
                    r@ == text_ops(t@).subrange(0, i as int),
                decreases len - i,
            {
                let c = s.get_char(i);
                if c == '\n' {
                    r.push(InjectionOp::KeyClick(InjectionKey::ReturnOrEnter));
                } else {
                    r.push(InjectionOp::UnicodeChar(c));
                }
                i += 1;
                proof {
                    assert(r@ =~= text_ops(t@).subrange(0, i as int));
                }
            }
            proof {
                assert(r@ =~= text_ops(t@));
            }
            r
        },
        RemoteControlEvent::Keyboard(k) => {
            let key = match k {
                Key::Backspace => InjectionKey::DeleteOrBackspace,
            };
            let mut r: Vec<InjectionOp> = Vec::new();
            r.push(InjectionOp::KeyClick(key));
            proof {
                assert(r@ =~= event_ops(*e));
            }
            r
        },
        RemoteControlEvent::MouseMove { dx, dy } => {
            let mut r: Vec<InjectionOp> = Vec::new();
            match (dx, dy) {
                (MouseDelta::Px(a), MouseDelta::Px(b)) => {
                    r.push(InjectionOp::MouseMoveRel(*a, *b));
                    proof {
                        assert(r@ =~= event_ops(*e));
                    }
                },
                _ => {
                    proof {
                        assert(r@ =~= event_ops(*e));
                    }
                },
            }
            r
        },
        RemoteControlEvent::MouseDown(b) => {
            let mut r: Vec<InjectionOp> = Vec::new();
            r.push(InjectionOp::MouseDown(*b));
            proof {
                assert(r@ =~= event_ops(*e));
            }
            r
        },
        RemoteControlEvent::MouseUp(b) => {
            let mut r: Vec<InjectionOp> = Vec::new();
            r.push(InjectionOp::MouseUp(*b));
            proof {
                assert(r@ =~= event_ops(*e));
            }
            r
        },
        RemoteControlEvent::MouseClick(b) => {
            let mut r: Vec<InjectionOp> = Vec::new();
            r.push(InjectionOp::MouseClick(*b));
            proof {
                assert(r@ =~= event_ops(*e));
            }
            r
        },
        RemoteControlEvent::MouseScroll { dx, dy } => {
            let mut r: Vec<InjectionOp> = Vec::new();
            match (dx, dy) {
                (MouseDelta::Px(a), MouseDelta::Px(b)) => {
                    r.push(InjectionOp::MouseScrollRel(*a, *b));
                    proof {
                        assert(r@ =~= event_ops(*e));
                    }
                },
                _ => {
                    proof {
                        assert(r@ =~= event_ops(*e));
                    }
                },
            }
            r
        },
        RemoteControlEvent::Action(a) => {
            let mut r: Vec<InjectionOp> = Vec::new();
            match a {
                Action::Home => {},
                Action::AltTab => {
                    r.push(InjectionOp::KeyDown(InjectionKey::Alt));
                    r.push(InjectionOp::KeyClick(InjectionKey::Tab));
                    r.push(InjectionOp::KeyUp(InjectionKey::Alt));
                },
            }
            proof {
                assert(r@ =~= event_ops(*e));
            }
            r
        },
    }
}

} // verus!
