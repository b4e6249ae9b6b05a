//! A small terminal-style game API: a console context and the state
//! machine trait that games implement.
use vstd::prelude::*;
use vstd::string::StringSliceAdditionalSpecFns;
use crate::input::{GameKey, decode_key, key_of};
use crate::io::{Console, decimal, write_decimal};

verus! {

/// Whether the game loop goes on after a tick.
#[derive(Clone, Copy, PartialEq, Eq, Structural)]
pub enum TickResult {
    Continue,
    Quit,
}

/// A game: one tick draws the screen, reads a key and reacts to it.
pub trait GameState {
    fn tick<C: Console + ?Sized>(&mut self, ctx: &mut BTerm<'_, C>) -> TickResult;
}

/// The bytes that clear the screen and home the cursor.
pub open spec fn cls_bytes() -> Seq<u8> {
    seq![0x1bu8, 0x5bu8, 0x32u8, 0x4au8, 0x1bu8, 0x5bu8, 0x48u8]
}

/// The bytes of an SGR (select graphic rendition) escape with `code`.
pub open spec fn sgr_bytes(code: u8) -> Seq<u8> {
    seq![0x1bu8, 0x5bu8] + decimal(code as int) + seq![0x6du8]
}

/// The bytes of the private font-select escape understood by the kernel's
/// framebuffer console.
pub open spec fn font_bytes(index: u8) -> Seq<u8> {
    seq![0x1bu8, 0x5bu8] + decimal(index as int) + seq![0x7au8]
}

/// A console context for a game.
pub struct BTerm<'a, C: Console + ?Sized> {
    console: &'a mut C,
}

impl<'a, C: Console + ?Sized> BTerm<'a, C> {
    /// Everything written to the underlying console so far.
    pub closed spec fn output(&self) -> Seq<u8> {
        self.console.output()
    }

    pub fn new(console: &'a mut C) -> (ctx: Self)
        ensures
            ctx.output() == old(console).output(),
    {
        Self { console }
    }

    /// Clears the screen and moves the cursor home.
    pub fn cls(&mut self)
        ensures
            final(self).output() == old(self).output() + cls_bytes(),
    {
        proof {
            reveal_strlit("\x1b[2J\x1b[H");
            vstd::string::is_ascii_spec_bytes("\x1b[2J\x1b[H");
        }
        self.console.write_str("\x1b[2J\x1b[H");
    }

    pub fn print(&mut self, text: &str)
        ensures
            final(self).output() == old(self).output() + text.spec_bytes(),
    {
        self.console.write_str(text);
    }

    pub fn put_char(&mut self, byte: u8)
        ensures
            final(self).output() == old(self).output().push(byte),
    {
        self.console.write_byte(byte);
    }

    /// Selects a graphic rendition (colour or style).
    pub fn set_sgr(&mut self, code: u8)
        ensures
            final(self).output() == old(self).output() + sgr_bytes(code),
    {
        self.console.write_byte(0x1b);
        self.console.write_byte(0x5b);
        write_decimal(self.console, code as i32);
        self.console.write_byte(0x6d);
        assert(sgr_bytes(code) == seq![0x1bu8].push(0x5bu8) + decimal(code as int) + seq![0x6du8]);
    }

    /// Returns to the default rendition.
    pub fn reset_style(&mut self)
        ensures
            final(self).output() == old(self).output() + sgr_bytes(0),
    {
        self.set_sgr(0);
    }

    /// Sends a private font-select escape understood by the kernel's
    /// framebuffer console parser.
    pub fn set_font(&mut self, font_index: u8)
        ensures
            final(self).output() == old(self).output() + font_bytes(font_index),
    {
        self.console.write_byte(0x1b);
        self.console.write_byte(0x5b);
        write_decimal(self.console, font_index as i32);
        self.console.write_byte(0x7a);
        assert(font_bytes(font_index) == seq![0x1bu8].push(0x5bu8) + decimal(font_index as int)
            + seq![0x7au8]);
    }

    /// The underlying console; what is written through it shows up in this
    /// context's output.
    pub fn console_mut(&mut self) -> (c: &mut C)
        ensures
            c.output() == old(self).output(),
            final(self).output() == final(c).output(),
    {
        self.console
    }

    /// Blocks for a key press and decodes it; nothing is written.
    pub fn key(&mut self) -> (k: GameKey)
        ensures
            final(self).output() == old(self).output(),
            exists|byte: u8| k == key_of(byte),
    {
        let byte = self.console.read_byte_blocking();
        decode_key(byte)
    }
}

} // verus!
