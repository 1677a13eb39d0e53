//! The pseudo-console's view of a pty's size.
use vstd::prelude::*;

verus! {

/// A pty's size in cells and pixels.
#[derive(Clone, Copy, Debug, PartialEq, Eq, Structural)]
pub struct PtySize {
    pub rows: u16,
    pub cols: u16,
    pub pixel_width: u16,
    pub pixel_height: u16,
}

/// The pseudo-console pty system.
pub struct ConPtySystem {}

impl ConPtySystem {
    /// The console coordinates `(X, Y)` for `size`: columns and rows as the
    /// console's signed 16-bit fields hold them.
    pub fn console_coord(&self, size: PtySize) -> (r: (i16, i16))
        ensures
            r == (size.cols as i16, size.rows as i16),
    {
        (size.cols as i16, size.rows as i16)
    }
}

} // verus!
