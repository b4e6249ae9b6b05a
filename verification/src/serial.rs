//! The firmware's legacy serial console, seen from the bytes that go
//! through it.
use vstd::prelude::*;

verus! {

/// What the firmware's `console_getchar` answers when no byte is waiting.
pub const NO_CHAR: usize = usize::MAX;

/// The byte that a `console_getchar` answer `raw` carries, if any.
pub fn received_byte(raw: usize) -> (b: Option<u8>)
    ensures
        b == (if raw == NO_CHAR {
            None
        } else {
            Some((raw % 256) as u8)
        }),
{
    if raw == NO_CHAR {
        None
    } else {
        Some((raw % 256) as u8)
    }
}

/// Whether a carriage return goes out before `byte`, so that a newline
/// starts the next line at its first column on a serial terminal.
pub fn needs_carriage_return(byte: u8) -> (cr: bool)
    ensures
        cr == (byte == 10),
{
    byte == 10
}

} // verus!
