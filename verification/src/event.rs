use vstd::prelude::*;

verus! {

/// An X event that the window manager reacts to, with the field it reads.
#[derive(Clone, Copy, Debug, PartialEq, Eq, Structural)]
pub enum Event {
    /// A grabbed key was pressed.
    KeyPress { keycode: u8 },
    /// A window was mapped.
    MapNotify { window: u32 },
    /// A window was destroyed.
    DestroyNotify { window: u32 },
    /// Any other event.
    Other,
}

/// A request that the window manager sends in reply to an event.
#[derive(Clone, Debug, PartialEq, Eq)]
pub enum Request {
    /// Start the program of that name.
    Spawn(String),
    /// Move and size a window, and set its border width where one is given.
    ConfigureWindow { window: u32, x: u32, y: u32, width: u32, height: u32, border_width: Option<u32> },
    /// Paint a window's border in the given colour.
    SetBorderPixel { window: u32, pixel: u32 },
    /// Give a window the input focus.
    SetInputFocus { window: u32 },
    /// Show a window.
    MapWindow { window: u32 },
    /// Hide a window.
    UnmapWindow { window: u32 },
    /// Destroy a window.
    DestroyWindow { window: u32 },
}

} // verus!
