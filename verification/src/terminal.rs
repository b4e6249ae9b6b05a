//! The text side of the kernel's framebuffer console: an ANSI escape
//! parser driving a cursor on an 80 by 50 grid of character cells and the
//! choice of font. What it asks the screen to do (clear, scroll, draw a
//! glyph) is returned as `Effects` for the caller to paint.
use vstd::prelude::*;
use crate::io::{decimal_digits, digit};

verus! {

/// Framebuffer width in pixels.
pub const WIDTH: u32 = 640;

/// Framebuffer height in pixels.
pub const HEIGHT: u32 = 400;

/// Width of a character cell in pixels.
pub const CELL_W: u32 = 8;

/// Height of a character cell in pixels.
pub const CELL_H: u32 = 8;

/// Character columns.
pub const COLS: usize = 80;

/// Character rows.
pub const ROWS: usize = 50;

/// Where the parser is within an escape sequence.
#[derive(Clone, Copy)]
pub enum AnsiState {
    /// Plain text.
    Ground,
    /// After ESC.
    Esc,
    /// Inside a CSI sequence (`ESC [`): the parameters read so far and the
    /// one being read.
    Csi { params: [u16; 4], count: usize, current: u16, has_current: bool },
}

/// The parser state as plain values.
pub enum AnsiMode {
    Ground,
    Esc,
    Csi { params: Seq<u16>, count: int, current: int, has_current: bool },
}

impl View for AnsiState {
    type V = AnsiMode;

    open spec fn view(&self) -> AnsiMode {
        match *self {
            AnsiState::Ground => AnsiMode::Ground,
            AnsiState::Esc => AnsiMode::Esc,
            AnsiState::Csi { params, count, current, has_current } => AnsiMode::Csi {
                params: params@,
                count: count as int,
                current: current as int,
                has_current,
            },
        }
    }
}

/// What the screen must do after one byte, in this order: clear it, scroll
/// it up by one row, draw a glyph at a cell.
#[derive(Clone, Copy)]
pub struct Effects {
    pub clear: bool,
    pub scroll: bool,
    /// The byte to draw, with its column and row.
    pub draw: Option<(u8, usize, usize)>,
}

/// No effect.
pub open spec fn no_effects() -> Effects {
    Effects { clear: false, scroll: false, draw: None }
}

/// The fonts the console can draw with: 0 is IBM437 8x8 regular, 1 is
/// IBM437 8x8 bold, 2 is IBM437 9x14 regular.
pub const FONT_COUNT: u8 = 3;

/// The terminal: escape-parser state, cursor and selected font.
pub struct Terminal {
    ansi_state: AnsiState,
    cursor_x: usize,
    cursor_y: usize,
    font: u8,
}

/// The terminal as plain values.
pub struct TermView {
    pub mode: AnsiMode,
    pub x: int,
    pub y: int,
    pub font: int,
}

impl View for Terminal {
    type V = TermView;

    closed spec fn view(&self) -> TermView {
        TermView {
            mode: self.ansi_state@,
            x: self.cursor_x as int,
            y: self.cursor_y as int,
            font: self.font as int,
        }
    }
}

/// The cursor is on the grid (the column may sit just past the last one,
/// after a glyph was drawn there) and a CSI sequence holds its four
/// parameter slots.
pub open spec fn term_ok(t: TermView) -> bool {
    &&& 0 <= t.x <= COLS
    &&& 0 <= t.y < ROWS
    &&& 0 <= t.font < FONT_COUNT
    &&& (t.mode matches AnsiMode::Csi { params, count, .. } ==> params.len() == 4 && 0 <= count <= 4)
}

/// `v * 10 + d`, saturating at `u16::MAX` at each step.
pub open spec fn push_digit(v: int, d: int) -> int {
    let m = if v * 10 > u16::MAX {
        u16::MAX as int
    } else {
        v * 10
    };
    if m + d > u16::MAX {
        u16::MAX as int
    } else {
        m + d
    }
}

/// Parameter `index`, or `default` when it is missing or zero.
pub open spec fn param_or(params: Seq<u16>, count: int, index: int, default: int) -> int {
    if index >= count {
        default
    } else if params[index] == 0 {
        default
    } else {
        params[index] as int
    }
}

/// The cursor after a line feed: first column of the next row, scrolling
/// when it was on the last row.
pub open spec fn after_newline(y: int) -> (int, int, bool) {
    if y + 1 >= ROWS {
        (0, ROWS - 1, true)
    } else {
        (0, y + 1, false)
    }
}

pub open spec fn min_int(a: int, b: int) -> int {
    if a < b {
        a
    } else {
        b
    }
}

/// The end of a CSI sequence: `J` with parameter 2 clears the screen and
/// homes the cursor, `H` and `f` move the cursor to the 1-based row and
/// column given (clamped to the grid); anything else is ignored.
pub open spec fn csi_effect(action: u8, params: Seq<u16>, count: int, x: int, y: int) -> (int, int, Effects) {
    if action == 74 {
        if param_or(params, count, 0, 0) == 2 {
            (0, 0, Effects { clear: true, scroll: false, draw: None })
        } else {
            (x, y, no_effects())
        }
    } else if action == 72 || action == 102 {
        let row = if param_or(params, count, 0, 1) >= 1 {
            param_or(params, count, 0, 1) - 1
        } else {
            0
        };
        let col = if param_or(params, count, 1, 1) >= 1 {
            param_or(params, count, 1, 1) - 1
        } else {
            0
        };
        (min_int(col, COLS - 1), min_int(row, ROWS - 1), no_effects())
    } else {
        (x, y, no_effects())
    }
}

/// The font after a CSI sequence ending in `action`: the private `z`
/// sequence selects the font its first parameter names (0 when missing),
/// when there is such a font; nothing else changes the font.
pub open spec fn csi_font(action: u8, params: Seq<u16>, count: int, font: int) -> int {
    if action == 122 && param_or(params, count, 0, 0) < FONT_COUNT {
        param_or(params, count, 0, 0)
    } else {
        font
    }
}

/// Parameters after the one being read is stored (when a slot is free).
pub open spec fn stored(params: Seq<u16>, count: int, current: int, has_current: bool) -> (Seq<u16>, int) {
    if count < 4 {
        (params.update(count, if has_current {
            current as u16
        } else {
            0u16
        }), count + 1)
    } else {
        (params, count)
    }
}

/// The next tab stop after column `x`.
pub open spec fn tab_stop(x: usize) -> int {
    min_int(((x + 8) as usize & !7usize) as int, COLS - 1)
}

/// One byte through the terminal: text is drawn at the cursor (wrapping to
/// the next line past the last column), line feed, carriage return, tab and
/// backspace move the cursor, ESC starts an escape sequence.
pub open spec fn feed_step(t: TermView, byte: u8) -> (TermView, Effects) {
    match t.mode {
        AnsiMode::Ground => {
            if byte == 0x1b {
                (TermView { mode: AnsiMode::Esc, ..t }, no_effects())
            } else if byte == 10 {
                let (nx, ny, sc) = after_newline(t.y);
                (TermView { x: nx, y: ny, ..t }, Effects { clear: false, scroll: sc, draw: None })
            } else if byte == 13 {
                (TermView { x: 0, ..t }, no_effects())
            } else if byte == 9 {
                (TermView { x: tab_stop(t.x as usize), ..t }, no_effects())
            } else if byte == 8 {
                (TermView { x: if t.x > 0 {
                    t.x - 1
                } else {
                    0
                }, ..t }, no_effects())
            } else if byte >= 0x20 {
                if t.x >= COLS {
                    let (nx, ny, sc) = after_newline(t.y);
                    (TermView { x: nx + 1, y: ny, ..t }, Effects {
                        clear: false,
                        scroll: sc,
                        draw: Some((byte, nx as usize, ny as usize)),
                    })
                } else {
                    (TermView { x: t.x + 1, ..t }, Effects {
                        clear: false,
                        scroll: false,
                        draw: Some((byte, t.x as usize, t.y as usize)),
                    })
                }
            } else {
                (t, no_effects())
            }
        },
        AnsiMode::Esc => {
            if byte == 0x5b {
                (TermView {
                    mode: AnsiMode::Csi {
                        params: seq![0u16, 0u16, 0u16, 0u16],
                        count: 0,
                        current: 0,
                        has_current: false,
                    },
                    ..t
                }, no_effects())
            } else {
                (TermView { mode: AnsiMode::Ground, ..t }, no_effects())
            }
        },
        AnsiMode::Csi { params, count, current, has_current } => {
            if 48 <= byte <= 57 {
                (TermView {
                    mode: AnsiMode::Csi {
                        params,
                        count,
                        current: push_digit(current, byte - 48),
                        has_current: true,
                    },
                    ..t
                }, no_effects())
            } else if byte == 59 {
                let (p2, c2) = stored(params, count, current, has_current);
                (TermView {
                    mode: AnsiMode::Csi { params: p2, count: c2, current: 0, has_current: false },
                    ..t
                }, no_effects())
            } else {
                let (p2, c2) = stored(params, count, current, has_current);
                let (nx, ny, fx) = csi_effect(byte, p2, c2, t.x, t.y);
                (TermView {
                    mode: AnsiMode::Ground,
                    x: nx,
                    y: ny,
                    font: csi_font(byte, p2, c2, t.font),
                }, fx)
            }
        },
    }
}

/// The terminal after the bytes `bytes`, one after the other.
pub open spec fn feed_all(t: TermView, bytes: Seq<u8>) -> TermView
    decreases bytes.len(),
{
    if bytes.len() == 0 {
        t
    } else {
        feed_step(feed_all(t, bytes.drop_last()), bytes.last()).0
    }
}

/// `ESC [ H` with no numbers moves the cursor home.
pub proof fn lemma_cursor_home(t: TermView)
    requires
        term_ok(t),
        t.mode == AnsiMode::Ground,
    ensures
        feed_all(t, seq![0x1bu8, 0x5bu8, 0x48u8]) == (TermView {
            mode: AnsiMode::Ground,
            x: 0,
            y: 0,
            font: t.font,
        }),
{
    let b = seq![0x1bu8, 0x5bu8, 0x48u8];
    reveal_with_fuel(feed_all, 4);
    assert(b.drop_last() == seq![0x1bu8, 0x5bu8]);
    assert(b.drop_last().drop_last() == seq![0x1bu8]);
    assert(b.drop_last().drop_last().drop_last().len() == 0);
    let t2 = feed_step(feed_step(t, 0x1b).0, 0x5b).0;
    assert(t2.mode == AnsiMode::Csi { params: seq![0u16, 0u16, 0u16, 0u16], count: 0, current: 0, has_current: false });
}

/// The font sequence `ESC [ n z` that `BTerm::set_font` sends selects font
/// `n` and leaves the cursor where it was.
pub proof fn lemma_font_escape(t: TermView, n: u8)
    requires
        term_ok(t),
        t.mode == AnsiMode::Ground,
        n < FONT_COUNT,
    ensures
        feed_all(t, seq![0x1bu8, 0x5bu8, (48 + n) as u8, 0x7au8])
            == (TermView { mode: AnsiMode::Ground, x: t.x, y: t.y, font: n as int }),
{
    let b = seq![0x1bu8, 0x5bu8, (48 + n) as u8, 0x7au8];
    reveal_with_fuel(feed_all, 5);
    let t1 = feed_step(t, 0x1b).0;
    let t2 = feed_step(t1, 0x5b).0;
    assert(t2.mode == AnsiMode::Csi { params: seq![0u16, 0u16, 0u16, 0u16], count: 0, current: 0, has_current: false });
    let t3 = feed_step(t2, (48 + n) as u8).0;
    assert(t3.mode == AnsiMode::Csi { params: seq![0u16, 0u16, 0u16, 0u16], count: 0, current: n as int, has_current: true });
    assert(b.drop_last() == seq![0x1bu8, 0x5bu8, (48 + n) as u8]);
    assert(b.drop_last().drop_last() == seq![0x1bu8, 0x5bu8]);
    assert(b.drop_last().drop_last().drop_last() == seq![0x1bu8]);
    assert(b.drop_last().drop_last().drop_last().drop_last().len() == 0);
}

/// Feeding two runs of bytes is feeding the first, then the second.
pub proof fn lemma_feed_concat(t: TermView, a: Seq<u8>, b: Seq<u8>)
    ensures
        feed_all(t, a + b) == feed_all(feed_all(t, a), b),
    decreases b.len(),
{
    if b.len() == 0 {
        assert(a + b == a);
    } else {
        assert((a + b).drop_last() == a + b.drop_last());
        assert((a + b).last() == b.last());
        lemma_feed_concat(t, a, b.drop_last());
    }
}

/// The decimal digits of a number up to 65535, read inside a CSI sequence
/// that has no number pending, leave that number pending.
proof fn lemma_feed_digits(t: TermView, n: nat)
    requires
        t.mode matches AnsiMode::Csi { current, has_current, .. } && current == 0,
        n <= u16::MAX,
    ensures
        feed_all(t, decimal_digits(n)) == (TermView {
            mode: match t.mode {
                AnsiMode::Csi { params, count, .. } => AnsiMode::Csi {
                    params,
                    count,
                    current: n as int,
                    has_current: true,
                },
                _ => t.mode,
            },
            ..t
        }),
    decreases n,
{
    if n < 10 {
        assert(decimal_digits(n) == seq![digit(n as int)]);
        assert(seq![digit(n as int)].drop_last().len() == 0);
    } else {
        let s = decimal_digits(n / 10);
        let b = digit(n as int % 10);
        assert(decimal_digits(n) == s.push(b));
        assert(s.push(b).drop_last() == s);
        lemma_feed_digits(t, n / 10);
        assert(n / 10 * 10 + n % 10 == n);
    }
}

/// The cursor-position sequence `ESC [ row ; col H`, with decimal row and
/// column up to 65535, puts the cursor at that 1-based row and column
/// (0 counting as 1), clamped to the grid, and leaves the parser ready for
/// text, the font unchanged.
pub proof fn lemma_cursor_position_escape(t: TermView, row: nat, col: nat)
    requires
        term_ok(t),
        t.mode == AnsiMode::Ground,
        row <= u16::MAX,
        col <= u16::MAX,
    ensures
        feed_all(
            t,
            seq![0x1bu8, 0x5bu8] + decimal_digits(row) + seq![0x3bu8] + decimal_digits(col) + seq![0x48u8],
        ) == (TermView {
            mode: AnsiMode::Ground,
            x: min_int(if col >= 1 { col - 1 } else { 0 }, COLS - 1),
            y: min_int(if row >= 1 { row - 1 } else { 0 }, ROWS - 1),
            font: t.font,
        }),
{
    let esc = seq![0x1bu8, 0x5bu8];
    let p0 = seq![0u16, 0u16, 0u16, 0u16];
    reveal_with_fuel(feed_all, 3);
    assert(esc.drop_last() == seq![0x1bu8]);
    assert(esc.drop_last().drop_last().len() == 0);
    let t2 = feed_all(t, esc);
    assert(t2 == (TermView {
        mode: AnsiMode::Csi { params: p0, count: 0, current: 0, has_current: false },
        ..t
    }));
    lemma_feed_digits(t2, row);
    let t3 = feed_all(t2, decimal_digits(row));
    lemma_feed_concat(t, esc, decimal_digits(row));
    let p1 = p0.update(0, row as u16);
    let t4 = feed_all(t3, seq![0x3bu8]);
    assert(seq![0x3bu8].drop_last().len() == 0);
    assert(t4 == (TermView {
        mode: AnsiMode::Csi { params: p1, count: 1, current: 0, has_current: false },
        ..t
    }));
    lemma_feed_concat(t, esc + decimal_digits(row), seq![0x3bu8]);
    lemma_feed_digits(t4, col);
    let t5 = feed_all(t4, decimal_digits(col));
    lemma_feed_concat(t, esc + decimal_digits(row) + seq![0x3bu8], decimal_digits(col));
    let p2 = p1.update(1, col as u16);
    assert(seq![0x48u8].drop_last().len() == 0);
    lemma_feed_concat(
        t,
        esc + decimal_digits(row) + seq![0x3bu8] + decimal_digits(col),
        seq![0x48u8],
    );
    assert(p2[0] == row as u16);
    assert(p2[1] == col as u16);
}

/// `u16::saturating_mul` by ten.
fn times_ten_saturating(v: u16) -> (r: u16)
    ensures
        r == (if v * 10 > u16::MAX {
            u16::MAX as int
        } else {
            v * 10
        }),
{
    if v > 6553 {
        u16::MAX
    } else {
        v * 10
    }
}

/// Parameter `index` of a CSI sequence, or `default` when it is missing or
/// zero.
pub fn get_param(params: &[u16; 4], count: usize, index: usize, default: u16) -> (v: u16)
    requires
        count <= 4,
    ensures
        v == param_or(params@, count as int, index as int, default as int),
{
    if index >= count {
        return default;
    }
    let value = params[index];
    if value == 0 {
        default
    } else {
        value
    }
}

impl Terminal {
    pub closed spec fn wf(&self) -> bool {
        term_ok(self@)
    }

    /// A terminal with the cursor home and no escape sequence pending.
    pub fn new() -> (t: Self)
        ensures
            t.wf(),
            t@ == (TermView { mode: AnsiMode::Ground, x: 0, y: 0, font: 0 }),
    {
        Terminal { ansi_state: AnsiState::Ground, cursor_x: 0, cursor_y: 0, font: 0 }
    }

    /// The selected font.
    pub fn font(&self) -> (f: u8)
        ensures
            f == self@.font,
    {
        self.font
    }

    /// The cursor column and row.
    pub fn cursor(&self) -> (c: (usize, usize))
        ensures
            c.0 == self@.x,
            c.1 == self@.y,
    {
        (self.cursor_x, self.cursor_y)
    }

    /// Moves to the first column of the next row; returns whether the
    /// screen must scroll up because the cursor was on the last row.
    fn newline(&mut self) -> (scrolled: bool)
        requires
            old(self).wf(),
        ensures
            final(self).wf(),
            final(self)@.mode == old(self)@.mode,
            final(self)@.font == old(self)@.font,
            (final(self)@.x, final(self)@.y, scrolled) == after_newline(old(self)@.y),
    {
        self.cursor_x = 0;
        self.cursor_y = self.cursor_y + 1;
        if self.cursor_y >= ROWS {
            self.cursor_y = ROWS - 1;
            return true;
        }
        false
    }

    /// Cursor moves and text drawing for a byte outside escape sequences.
    fn feed_ground(&mut self, byte: u8) -> (fx: Effects)
        requires
            old(self).wf(),
            old(self)@.mode == AnsiMode::Ground,
        ensures
            final(self).wf(),
            (final(self)@, fx) == feed_step(old(self)@, byte),
    {
        if byte == 0x1b {
            self.ansi_state = AnsiState::Esc;
            Effects { clear: false, scroll: false, draw: None }
        } else if byte == 10 {
            let scrolled = self.newline();
            Effects { clear: false, scroll: scrolled, draw: None }
        } else if byte == 13 {
            self.cursor_x = 0;
            Effects { clear: false, scroll: false, draw: None }
        } else if byte == 9 {
            let next = (self.cursor_x + 8) & !7;
            self.cursor_x = if next < COLS - 1 {
                next
            } else {
                COLS - 1
            };
            Effects { clear: false, scroll: false, draw: None }
        } else if byte == 8 {
            self.cursor_x = if self.cursor_x > 0 {
                self.cursor_x - 1
            } else {
                0
            };
            Effects { clear: false, scroll: false, draw: None }
        } else if byte >= 0x20 {
            let mut scrolled = false;
            if self.cursor_x >= COLS {
                scrolled = self.newline();
            }
            let col = self.cursor_x;
            let row = self.cursor_y;
            self.cursor_x = self.cursor_x + 1;
            Effects { clear: false, scroll: scrolled, draw: Some((byte, col, row)) }
        } else {
            Effects { clear: false, scroll: false, draw: None }
        }
    }

    /// Feeds one byte of output through the escape parser.
    pub fn feed_ansi(&mut self, byte: u8) -> (fx: Effects)
        requires
            old(self).wf(),
        ensures
            final(self).wf(),
            (final(self)@, fx) == feed_step(old(self)@, byte),
    {
        match self.ansi_state {
            AnsiState::Ground => self.feed_ground(byte),
            AnsiState::Esc => {
                if byte == 0x5b {
                    self.ansi_state = AnsiState::Csi {
                        params: [0; 4],
                        count: 0,
                        current: 0,
                        has_current: false,
                    };
                    assert(self@.mode matches AnsiMode::Csi { params, .. } && params =~= seq![0u16, 0u16, 0u16, 0u16]);
                } else {
                    self.ansi_state = AnsiState::Ground;
                }
                Effects { clear: false, scroll: false, draw: None }
            },
            AnsiState::Csi { params, count, current, has_current } => {
                let mut params = params;
                let mut count = count;
                let mut current = current;
                let mut has_current = has_current;
                if 48 <= byte && byte <= 57 {
                    let tens = times_ten_saturating(current);
                    let digit = (byte - 48) as u16;
                    current = if tens as u32 + digit as u32 > u16::MAX as u32 {
                        u16::MAX
                    } else {
                        tens + digit
                    };
                    has_current = true;
                } else if byte == 59 {
                    if count < 4 {
                        params[count] = if has_current {
                            current
                        } else {
                            0
                        };
                        count = count + 1;
                    }
                    current = 0;
                    has_current = false;
                } else {
                    if count < 4 {
                        params[count] = if has_current {
                            current
                        } else {
                            0
                        };
                        count = count + 1;
                    }
                    let fx = self.handle_csi(byte, &params, count);
                    self.ansi_state = AnsiState::Ground;
                    return fx;
                }
                self.ansi_state = AnsiState::Csi { params, count, current, has_current };
                Effects { clear: false, scroll: false, draw: None }
            },
        }
    }

    /// Carries out the CSI sequence ending in `action`.
    fn handle_csi(&mut self, action: u8, params: &[u16; 4], count: usize) -> (fx: Effects)
        requires
            old(self).wf(),
            count <= 4,
        ensures
            final(self)@.mode == old(self)@.mode,
            (final(self)@.x, final(self)@.y, fx) == csi_effect(action, params@, count as int, old(self)@.x, old(self)@.y),
            final(self)@.font == csi_font(action, params@, count as int, old(self)@.font),
            0 <= final(self)@.font < FONT_COUNT,
            0 <= final(self)@.x <= COLS,
            0 <= final(self)@.y < ROWS,
    {
        if action == 74 {
            let mode = get_param(params, count, 0, 0);
            if mode == 2 {
                self.cursor_x = 0;
                self.cursor_y = 0;
                return Effects { clear: true, scroll: false, draw: None };
            }
            Effects { clear: false, scroll: false, draw: None }
        } else if action == 72 || action == 102 {
            let row = get_param(params, count, 0, 1).saturating_sub(1) as usize;
            let col = get_param(params, count, 1, 1).saturating_sub(1) as usize;
            self.csi_cursor_position(row, col);
            Effects { clear: false, scroll: false, draw: None }
        } else if action == 122 {
            let font = get_param(params, count, 0, 0);
            if font < FONT_COUNT as u16 {
                self.font = font as u8;
            }
            Effects { clear: false, scroll: false, draw: None }
        } else {
            Effects { clear: false, scroll: false, draw: None }
        }
    }

    /// Moves the cursor to `(col, row)`, clamped to the grid.
    fn csi_cursor_position(&mut self, row: usize, col: usize)
        ensures
            final(self)@.mode == old(self)@.mode,
            final(self)@.font == old(self)@.font,
            final(self)@.x == min_int(col as int, COLS - 1),
            final(self)@.y == min_int(row as int, ROWS - 1),
    {
        self.cursor_y = if row < ROWS - 1 {
            row
        } else {
            ROWS - 1
        };
        self.cursor_x = if col < COLS - 1 {
            col
        } else {
            COLS - 1
        };
    }

    /// Homes the cursor (the caller clears the pixels).
    pub fn clear_screen(&mut self)
        requires
            old(self).wf(),
        ensures
            final(self).wf(),
            final(self)@ == (TermView { x: 0, y: 0, ..old(self)@ }),
    {
        self.cursor_x = 0;
        self.cursor_y = 0;
    }
}

} // verus!
