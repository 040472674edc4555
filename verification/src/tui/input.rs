use vstd::prelude::*;

verus! {

#[derive(Debug, Clone, Copy, PartialEq, Eq, Structural)]
pub enum Focus {
    Tree,
    MapView,
}

#[derive(Debug, Clone, Copy, PartialEq, Eq, Structural)]
pub enum Action {
    Quit,
    MoveUp,
    MoveDown,
    ToggleExpand,
    ToggleTree,
    ZoomIn,
    ZoomOut,
    PanLeft,
    PanRight,
    PanUp,
    PanDown,
    NoOp,
}

/// The key that was pressed, as far as the key map reads it.
#[derive(Debug, Clone, Copy, PartialEq, Eq, Structural)]
pub enum KeyCode {
    Char(char),
    Up,
    Down,
    Left,
    Right,
    Enter,
    Tab,
    Other,
}

/// The modifier keys held during a key press or a mouse event.
#[derive(Debug, Clone, Copy, PartialEq, Eq, Structural)]
pub struct KeyModifiers {
    pub control: bool,
    pub shift: bool,
}

#[derive(Debug, Clone, Copy, PartialEq, Eq, Structural)]
pub struct KeyEvent {
    pub code: KeyCode,
    pub modifiers: KeyModifiers,
}

#[derive(Debug, Clone, Copy, PartialEq, Eq, Structural)]
pub enum MouseEventKind {
    ScrollUp,
    ScrollDown,
    ScrollLeft,
    ScrollRight,
    Other,
}

#[derive(Debug, Clone, Copy, PartialEq, Eq, Structural)]
pub struct MouseEvent {
    pub kind: MouseEventKind,
    pub modifiers: KeyModifiers,
}

/// The key map: `q` or Ctrl+C quit; Up/Down move in the tree; Enter expands
/// a folder or centers on a placemark; `h`/`j`/`k`/`l` and Left/Right pan;
/// `+`/`=` and `-` zoom; `t` and Tab toggle the tree panel.
pub open spec fn key_action(key: KeyEvent) -> Action {
    match key.code {
        KeyCode::Char(c) => {
            if c == 'q' || (c == 'c' && key.modifiers.control) {
                Action::Quit
            } else if c == 'h' {
                Action::PanLeft
            } else if c == 'j' {
                Action::PanDown
            } else if c == 'k' {
                Action::PanUp
            } else if c == 'l' {
                Action::PanRight
            } else if c == '+' || c == '=' {
                Action::ZoomIn
            } else if c == '-' {
                Action::ZoomOut
            } else if c == 't' {
                Action::ToggleTree
            } else {
                Action::NoOp
            }
        },
        KeyCode::Down => Action::MoveDown,
        KeyCode::Up => Action::MoveUp,
        KeyCode::Enter => Action::ToggleExpand,
        KeyCode::Left => Action::PanLeft,
        KeyCode::Right => Action::PanRight,
        KeyCode::Tab => Action::ToggleTree,
        KeyCode::Other => Action::NoOp,
    }
}

/// The mouse map: the wheel pans vertically; with Shift held (Ctrl or not)
/// it pans horizontally, and with Ctrl alone it zooms; horizontal wheel
/// events pan horizontally.
pub open spec fn mouse_action(mouse: MouseEvent) -> Action {
    match mouse.kind {
        MouseEventKind::ScrollUp => {
            if mouse.modifiers.shift {
                Action::PanLeft
            } else if mouse.modifiers.control {
                Action::ZoomIn
            } else {
                Action::PanUp
            }
        },
        MouseEventKind::ScrollDown => {
            if mouse.modifiers.shift {
                Action::PanRight
            } else if mouse.modifiers.control {
                Action::ZoomOut
            } else {
                Action::PanDown
            }
        },
        MouseEventKind::ScrollLeft => Action::PanLeft,
        MouseEventKind::ScrollRight => Action::PanRight,
        MouseEventKind::Other => Action::NoOp,
    }
}

pub fn handle_key(key: KeyEvent) -> (action: Action)
    ensures
        action == key_action(key),
{
    match key.code {
        KeyCode::Char('q') => Action::Quit,
        KeyCode::Char('c') if key.modifiers.control => Action::Quit,
        KeyCode::Char('h') | KeyCode::Left => Action::PanLeft,
        KeyCode::Char('j') => Action::PanDown,
        KeyCode::Char('k') => Action::PanUp,
        KeyCode::Char('l') | KeyCode::Right => Action::PanRight,
        KeyCode::Down => Action::MoveDown,
        KeyCode::Up => Action::MoveUp,
        KeyCode::Enter => Action::ToggleExpand,
        KeyCode::Char('+') | KeyCode::Char('=') => Action::ZoomIn,
        KeyCode::Char('-') => Action::ZoomOut,
        KeyCode::Char('t') | KeyCode::Tab => Action::ToggleTree,
        _ => Action::NoOp,
    }
}

pub fn handle_mouse(mouse: MouseEvent) -> (action: Action)
    ensures
        action == mouse_action(mouse),
{
    match mouse.kind {
        MouseEventKind::ScrollUp => {
            if mouse.modifiers.shift {
                Action::PanLeft
            } else if mouse.modifiers.control {
                Action::ZoomIn
            } else {
                Action::PanUp
            }
        },
        MouseEventKind::ScrollDown => {
            if mouse.modifiers.shift {
                Action::PanRight
            } else if mouse.modifiers.control {
                Action::ZoomOut
            } else {
                Action::PanDown
            }
        },
        MouseEventKind::ScrollLeft => Action::PanLeft,
        MouseEventKind::ScrollRight => Action::PanRight,
        MouseEventKind::Other => Action::NoOp,
    }
}

} // verus!
