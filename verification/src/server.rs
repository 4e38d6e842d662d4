//! What the library and a display server say to each other.
//!
//! The library never calls the server. Where it needs something of it, it
//! hands out a [`Request`]; whoever owns the connection carries the request
//! out and resumes the library with the [`Reply`].

use crate::key_mapper::KeyPress;
use vstd::prelude::*;

verus! {

/// A window's identifier. `0` is no window.
pub type Window = u64;

/// A key symbol: the layout-independent name of a key.
pub type KeySym = u64;

/// A keycode: the number of a key under the current layout. `0` is no key.
pub type KeyCode = u8;

/// The text encoding of plain 8-bit strings.
pub const ENCODING_STRING: u64 = 31;

/// The window that stands for "focus follows the pointer".
pub const POINTER_ROOT: Window = 1;

/// The text properties that can name a window's class, in the order in which
/// they are tried.
#[derive(Debug, Clone, Copy, PartialEq, Eq, Structural)]
pub enum PropertyKey {
    /// The window class proper.
    Class,
    /// The window's name, in the newer form.
    NetName,
    /// The window's name.
    Name,
}

/// Press or release.
#[derive(Debug, Clone, Copy, PartialEq, Eq, Structural)]
pub enum KeyEventKind {
    Press,
    Release,
}

/// A synthetic key event, every field as it is to be sent.
#[derive(Debug, Clone, Copy, PartialEq, Eq, Structural)]
pub struct KeyEvent {
    pub kind: KeyEventKind,
    /// The window the event is addressed to.
    pub window: Window,
    pub subwindow: Window,
    pub time: u64,
    pub x: i32,
    pub y: i32,
    pub x_root: i32,
    pub y_root: i32,
    /// The modifier mask.
    pub state: u32,
    pub keycode: KeyCode,
    pub same_screen: bool,
    /// Whether the event is passed on to the window's ancestors.
    pub propagate: bool,
    /// The mask of events under which it is delivered.
    pub event_mask: u64,
}

/// What the library asks of the display server.
#[derive(Debug, Clone, Copy, PartialEq, Eq, Structural)]
pub enum Request {
    /// Read the root window's "active window" property.
    ActiveWindowProperty,
    /// Read which window has the input focus.
    InputFocus,
    /// Read a window's root, parent and children.
    Tree(Window),
    /// Read a text property of a window.
    TextProperty(Window, PropertyKey),
    /// Read a text property of a window and decode it to a list of strings.
    TextList(Window, PropertyKey),
    /// Map a key symbol to a keycode under the current layout.
    Keycode(KeySym),
    /// Release every key grab on the root window.
    UngrabAll,
    /// Grab a key with a modifier mask on the root window.
    Grab(KeyPress),
    /// Send a synthetic key event.
    Send(KeyEvent),
    /// Wait for so many milliseconds.
    Settle(u64),
}

/// What the display server answered.
#[derive(Debug, PartialEq, Eq)]
pub enum Reply {
    /// A request that has no result was carried out.
    Done,
    /// The call failed, or what was asked for is not there.
    Failed,
    /// A window.
    Window(Window),
    /// A window's place in the tree.
    Tree { root: Window, parent: Window, children: Vec<Window> },
    /// A text property: its encoding and its bytes.
    Text { encoding: u64, value: Vec<u8> },
    /// A text property decoded to strings.
    TextList(Vec<String>),
    /// A keycode; `0` where the layout has no key for the symbol.
    Keycode(KeyCode),
}

} // verus!
