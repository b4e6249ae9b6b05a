//! Keyboard input of the kernel's framebuffer console: evdev key events
//! turned into bytes and queued until the game reads them.
use vstd::prelude::*;
use crate::input::{key_of, GameKey};

verus! {

/// evdev event type of key events.
pub const EV_KEY: u16 = 0x01;

pub const KEY_RELEASE: u32 = 0;

pub const KEY_PRESS: u32 = 1;

pub const KEY_REPEAT: u32 = 2;

pub const KEY_LEFTSHIFT: u16 = 42;

pub const KEY_RIGHTSHIFT: u16 = 54;

/// Slots of the key queue; one stays free, so it holds up to 63 keys.
pub const KEYBUF_LEN: usize = 64;

/// The byte a key press gives (Linux evdev key codes), with the shift
/// state: digits and letters (shifted: symbols and capitals), Enter, space,
/// arrow keys as vi keys, and keypad keys as digits with or without NumLock.
pub open spec fn keycode_byte(code: u16, shift: bool) -> Option<u8> {
    match code {
        2 => Some(if shift { 33u8 } else { 49u8 }),
        3 => Some(if shift { 64u8 } else { 50u8 }),
        4 => Some(if shift { 35u8 } else { 51u8 }),
        5 => Some(if shift { 36u8 } else { 52u8 }),
        6 => Some(if shift { 37u8 } else { 53u8 }),
        7 => Some(if shift { 94u8 } else { 54u8 }),
        8 => Some(if shift { 38u8 } else { 55u8 }),
        9 => Some(if shift { 42u8 } else { 56u8 }),
        10 => Some(if shift { 40u8 } else { 57u8 }),
        11 => Some(if shift { 41u8 } else { 48u8 }),
        16 => Some(if shift { 81u8 } else { 113u8 }),
        17 => Some(if shift { 87u8 } else { 119u8 }),
        18 => Some(if shift { 69u8 } else { 101u8 }),
        19 => Some(if shift { 82u8 } else { 114u8 }),
        20 => Some(if shift { 84u8 } else { 116u8 }),
        21 => Some(if shift { 89u8 } else { 121u8 }),
        22 => Some(if shift { 85u8 } else { 117u8 }),
        23 => Some(if shift { 73u8 } else { 105u8 }),
        24 => Some(if shift { 79u8 } else { 111u8 }),
        25 => Some(if shift { 80u8 } else { 112u8 }),
        30 => Some(if shift { 65u8 } else { 97u8 }),
        31 => Some(if shift { 83u8 } else { 115u8 }),
        32 => Some(if shift { 68u8 } else { 100u8 }),
        33 => Some(if shift { 70u8 } else { 102u8 }),
        34 => Some(if shift { 71u8 } else { 103u8 }),
        35 => Some(if shift { 72u8 } else { 104u8 }),
        36 => Some(if shift { 74u8 } else { 106u8 }),
        37 => Some(if shift { 75u8 } else { 107u8 }),
        38 => Some(if shift { 76u8 } else { 108u8 }),
        44 => Some(if shift { 90u8 } else { 122u8 }),
        45 => Some(if shift { 88u8 } else { 120u8 }),
        46 => Some(if shift { 67u8 } else { 99u8 }),
        47 => Some(if shift { 86u8 } else { 118u8 }),
        48 => Some(if shift { 66u8 } else { 98u8 }),
        49 => Some(if shift { 78u8 } else { 110u8 }),
        50 => Some(if shift { 77u8 } else { 109u8 }),
        // Enter
        28 => Some(10u8),
        // Space
        57 => Some(32u8),
        // Left arrow
        105 => Some(104u8),
        // Up arrow
        103 => Some(107u8),
        // Right arrow
        106 => Some(108u8),
        // Down arrow
        108 => Some(106u8),
        // Keypad 1
        79 => Some(49u8),
        // Keypad 2
        80 => Some(50u8),
        // Keypad 3
        81 => Some(51u8),
        // Keypad 4
        75 => Some(52u8),
        // Keypad 5
        76 => Some(53u8),
        // Keypad 6
        77 => Some(54u8),
        // Keypad 7
        71 => Some(55u8),
        // Keypad 8
        72 => Some(56u8),
        // Keypad 9
        73 => Some(57u8),
        // End
        107 => Some(49u8),
        // Page down
        109 => Some(51u8),
        // Home
        102 => Some(55u8),
        // Page up
        104 => Some(57u8),
        _ => None,
    }
}

/// Maps an evdev key code to the byte it types.
pub fn map_keycode(code: u16, shift: bool) -> (key: Option<u8>)
    ensures
        key == keycode_byte(code, shift),
{
    match code {
        2 => Some(if shift { 33u8 } else { 49u8 }),
        3 => Some(if shift { 64u8 } else { 50u8 }),
        4 => Some(if shift { 35u8 } else { 51u8 }),
        5 => Some(if shift { 36u8 } else { 52u8 }),
        6 => Some(if shift { 37u8 } else { 53u8 }),
        7 => Some(if shift { 94u8 } else { 54u8 }),
        8 => Some(if shift { 38u8 } else { 55u8 }),
        9 => Some(if shift { 42u8 } else { 56u8 }),
        10 => Some(if shift { 40u8 } else { 57u8 }),
        11 => Some(if shift { 41u8 } else { 48u8 }),
        16 => Some(if shift { 81u8 } else { 113u8 }),
        17 => Some(if shift { 87u8 } else { 119u8 }),
        18 => Some(if shift { 69u8 } else { 101u8 }),
        19 => Some(if shift { 82u8 } else { 114u8 }),
        20 => Some(if shift { 84u8 } else { 116u8 }),
        21 => Some(if shift { 89u8 } else { 121u8 }),
        22 => Some(if shift { 85u8 } else { 117u8 }),
        23 => Some(if shift { 73u8 } else { 105u8 }),
        24 => Some(if shift { 79u8 } else { 111u8 }),
        25 => Some(if shift { 80u8 } else { 112u8 }),
        30 => Some(if shift { 65u8 } else { 97u8 }),
        31 => Some(if shift { 83u8 } else { 115u8 }),
        32 => Some(if shift { 68u8 } else { 100u8 }),
        33 => Some(if shift { 70u8 } else { 102u8 }),
        34 => Some(if shift { 71u8 } else { 103u8 }),
        35 => Some(if shift { 72u8 } else { 104u8 }),
        36 => Some(if shift { 74u8 } else { 106u8 }),
        37 => Some(if shift { 75u8 } else { 107u8 }),
        38 => Some(if shift { 76u8 } else { 108u8 }),
        44 => Some(if shift { 90u8 } else { 122u8 }),
        45 => Some(if shift { 88u8 } else { 120u8 }),
        46 => Some(if shift { 67u8 } else { 99u8 }),
        47 => Some(if shift { 86u8 } else { 118u8 }),
        48 => Some(if shift { 66u8 } else { 98u8 }),
        49 => Some(if shift { 78u8 } else { 110u8 }),
        50 => Some(if shift { 77u8 } else { 109u8 }),
        // Enter
        28 => Some(10u8),
        // Space
        57 => Some(32u8),
        // Left arrow
        105 => Some(104u8),
        // Up arrow
        103 => Some(107u8),
        // Right arrow
        106 => Some(108u8),
        // Down arrow
        108 => Some(106u8),
        // Keypad 1
        79 => Some(49u8),
        // Keypad 2
        80 => Some(50u8),
        // Keypad 3
        81 => Some(51u8),
        // Keypad 4
        75 => Some(52u8),
        // Keypad 5
        76 => Some(53u8),
        // Keypad 6
        77 => Some(54u8),
        // Keypad 7
        71 => Some(55u8),
        // Keypad 8
        72 => Some(56u8),
        // Keypad 9
        73 => Some(57u8),
        // End
        107 => Some(49u8),
        // Page down
        109 => Some(51u8),
        // Home
        102 => Some(55u8),
        // Page up
        104 => Some(57u8),
        _ => None,
    }
}

/// A press or repeat of a key other than shift that types a byte.
pub open spec fn types_key(event_type: u16, code: u16, value: u32, shift: bool) -> bool {
    &&& event_type == EV_KEY
    &&& code != KEY_LEFTSHIFT
    &&& code != KEY_RIGHTSHIFT
    &&& (value == KEY_PRESS || value == KEY_REPEAT)
    &&& keycode_byte(code, shift) is Some
}

/// Queued keys and the shift state.
pub struct Keyboard {
    keybuf: [u8; 64],
    key_head: usize,
    key_tail: usize,
    shift_down: bool,
}

/// The number of queued keys in a ring of `KEYBUF_LEN` slots.
pub open spec fn ring_len(head: int, tail: int) -> int {
    if tail >= head {
        tail - head
    } else {
        tail + KEYBUF_LEN - head
    }
}

impl Keyboard {
    /// Head and tail are slots of the ring.
    pub closed spec fn wf(&self) -> bool {
        self.key_head < KEYBUF_LEN && self.key_tail < KEYBUF_LEN
    }

    /// The queued keys, oldest first.
    pub closed spec fn queue(&self) -> Seq<u8> {
        Seq::new(
            ring_len(self.key_head as int, self.key_tail as int) as nat,
            |i: int| self.keybuf@[(self.key_head + i) % (KEYBUF_LEN as int)],
        )
    }

    /// Whether a shift key is held.
    pub closed spec fn shift(&self) -> bool {
        self.shift_down
    }

    /// No keys queued, shift released.
    pub fn new() -> (k: Self)
        ensures
            k.wf(),
            k.queue() == Seq::<u8>::empty(),
            !k.shift(),
    {
        let k = Keyboard { keybuf: [0; 64], key_head: 0, key_tail: 0, shift_down: false };
        assert(k.queue() =~= Seq::<u8>::empty());
        k
    }

    /// Appends `key` to the queue, unless the queue is full (63 keys), in
    /// which case the key is dropped.
    pub fn enqueue_key(&mut self, key: u8)
        requires
            old(self).wf(),
        ensures
            final(self).wf(),
            final(self).shift() == old(self).shift(),
            final(self).queue() == (if old(self).queue().len() < KEYBUF_LEN - 1 {
                old(self).queue().push(key)
            } else {
                old(self).queue()
            }),
    {
        let ghost q0 = self.queue();
        let next = (self.key_tail + 1) % KEYBUF_LEN;
        if next == self.key_head {
            return ;
        }
        let ghost old_buf = self.keybuf@;
        self.keybuf[self.key_tail] = key;
        self.key_tail = next;
        assert(self.queue() =~= q0.push(key)) by {
            assert forall|i: int| 0 <= i < q0.len() implies self.queue()[i] == q0[i] by {
                assert((self.key_head + i) % 64 != (self.key_tail + 63) % 64);
            }
        }
    }

    /// Takes the oldest key from the queue.
    pub fn dequeue_key(&mut self) -> (key: Option<u8>)
        requires
            old(self).wf(),
        ensures
            final(self).wf(),
            final(self).shift() == old(self).shift(),
            old(self).queue().len() == 0 ==> key is None && final(self).queue() == old(self).queue(),
            old(self).queue().len() > 0 ==> key == Some(old(self).queue()[0]) && final(self).queue()
                == old(self).queue().drop_first(),
    {
        if self.key_head == self.key_tail {
            return None;
        }
        let ghost q0 = self.queue();
        let key = self.keybuf[self.key_head];
        self.key_head = (self.key_head + 1) % KEYBUF_LEN;
        assert(self.queue() =~= q0.drop_first());
        Some(key)
    }

    /// Handles one input event: shift keys update the shift state, other
    /// key presses and repeats queue the byte they type; releases and
    /// other events are ignored.
    pub fn process_event(&mut self, event_type: u16, code: u16, value: u32)
        requires
            old(self).wf(),
        ensures
            final(self).wf(),
            final(self).shift() == (if event_type == EV_KEY && (code == KEY_LEFTSHIFT || code
                == KEY_RIGHTSHIFT) {
                value != KEY_RELEASE
            } else {
                old(self).shift()
            }),
            final(self).queue() == (if types_key(event_type, code, value, old(self).shift())
                && old(self).queue().len() < KEYBUF_LEN - 1 {
                old(self).queue().push(keycode_byte(code, old(self).shift()).unwrap())
            } else {
                old(self).queue()
            }),
    {
        if event_type != EV_KEY {
            return ;
        }

        if code == KEY_LEFTSHIFT || code == KEY_RIGHTSHIFT {
            self.shift_down = value != KEY_RELEASE;
            return ;
        }

        if value != KEY_PRESS && value != KEY_REPEAT {
            return ;
        }

        if let Some(byte) = map_keycode(code, self.shift_down) {
            self.enqueue_key(byte);
        }
    }
}

/// The key queue hands keys out in the order they came in: enqueuing a
/// key into a queue with room and then dequeuing everything yields the old
/// keys followed by the new one.
pub proof fn lemma_queue_fifo(q: Seq<u8>, key: u8)
    requires
        q.len() < KEYBUF_LEN - 1,
    ensures
        q.push(key).drop_first() == (if q.len() == 0 {
            Seq::<u8>::empty()
        } else {
            q.drop_first().push(key)
        }),
        q.push(key)[0] == (if q.len() == 0 {
            key
        } else {
            q[0]
        }),
{
    if q.len() == 0 {
        assert(q.push(key).drop_first() =~= Seq::<u8>::empty());
    } else {
        assert(q.push(key).drop_first() =~= q.drop_first().push(key));
    }
}

/// The top row of letters on a QWERTY keyboard, `qwertyuiop`.
pub open spec fn qwerty_top_row() -> Seq<u8> {
    seq![113u8, 119u8, 101u8, 114u8, 116u8, 121u8, 117u8, 105u8, 111u8, 112u8]
}

/// The middle row of letters, `asdfghjkl`.
pub open spec fn qwerty_home_row() -> Seq<u8> {
    seq![97u8, 115u8, 100u8, 102u8, 103u8, 104u8, 106u8, 107u8, 108u8]
}

/// The bottom row of letters, `zxcvbnm`.
pub open spec fn qwerty_bottom_row() -> Seq<u8> {
    seq![122u8, 120u8, 99u8, 118u8, 98u8, 110u8, 109u8]
}

/// The digit row, `1234567890`, and what it types with shift, `!@#$%^&*()`.
pub open spec fn digit_row() -> Seq<u8> {
    seq![49u8, 50u8, 51u8, 52u8, 53u8, 54u8, 55u8, 56u8, 57u8, 48u8]
}

pub open spec fn shifted_digit_row() -> Seq<u8> {
    seq![33u8, 64u8, 35u8, 36u8, 37u8, 94u8, 38u8, 42u8, 40u8, 41u8]
}

/// The evdev codes of the letter keys: 16 to 25, 30 to 38 and 44 to 50.
pub open spec fn is_letter_code(code: u16) -> bool {
    (16 <= code <= 25) || (30 <= code <= 38) || (44 <= code <= 50)
}

/// The letter keys follow the QWERTY layout: the three rows of key codes
/// type `qwertyuiop`, `asdfghjkl` and `zxcvbnm` without shift; with shift
/// every letter key types the same letter in upper case (32 less).
pub proof fn lemma_letter_keys(code: u16, shift: bool)
    ensures
        16 <= code <= 25 ==> keycode_byte(code, false) == Some(qwerty_top_row()[code - 16]),
        30 <= code <= 38 ==> keycode_byte(code, false) == Some(qwerty_home_row()[code - 30]),
        44 <= code <= 50 ==> keycode_byte(code, false) == Some(qwerty_bottom_row()[code - 44]),
        is_letter_code(code) ==> {
            &&& keycode_byte(code, false) matches Some(lower)
            &&& 97 <= lower <= 122
            &&& keycode_byte(code, true) == Some((lower - 32) as u8)
        },
{
}

/// The digit keys type `1234567890` without shift and `!@#$%^&*()` with it.
pub proof fn lemma_digit_keys(code: u16)
    ensures
        2 <= code <= 11 ==> keycode_byte(code, false) == Some(digit_row()[code - 2])
            && keycode_byte(code, true) == Some(shifted_digit_row()[code - 2]),
{
}

/// The arrow keys and the keypad (with or without NumLock) type bytes that
/// the game reads as steps in the direction of the key: left, up, right and
/// down arrows step west, north, east and south; keypad 1 to 9 step as they
/// sit on the keypad; End, Page Down, Home and Page Up step as 1, 3, 7 and 9.
/// Shift changes none of them.
pub proof fn lemma_movement_keys(shift: bool)
    ensures
        keycode_byte(105, shift) matches Some(b) && key_of(b) == (GameKey::Move { dx: -1i32, dy: 0 }),
        keycode_byte(103, shift) matches Some(b) && key_of(b) == (GameKey::Move { dx: 0, dy: -1i32 }),
        keycode_byte(106, shift) matches Some(b) && key_of(b) == (GameKey::Move { dx: 1, dy: 0 }),
        keycode_byte(108, shift) matches Some(b) && key_of(b) == (GameKey::Move { dx: 0, dy: 1 }),
        keycode_byte(79, shift) matches Some(b) && key_of(b) == (GameKey::Move { dx: -1i32, dy: 1 }),
        keycode_byte(80, shift) matches Some(b) && key_of(b) == (GameKey::Move { dx: 0, dy: 1 }),
        keycode_byte(81, shift) matches Some(b) && key_of(b) == (GameKey::Move { dx: 1, dy: 1 }),
        keycode_byte(75, shift) matches Some(b) && key_of(b) == (GameKey::Move { dx: -1i32, dy: 0 }),
        keycode_byte(76, shift) == Some(53u8),
        keycode_byte(77, shift) matches Some(b) && key_of(b) == (GameKey::Move { dx: 1, dy: 0 }),
        keycode_byte(71, shift) matches Some(b) && key_of(b) == (GameKey::Move { dx: -1i32, dy: -1i32 }),
        keycode_byte(72, shift) matches Some(b) && key_of(b) == (GameKey::Move { dx: 0, dy: -1i32 }),
        keycode_byte(73, shift) matches Some(b) && key_of(b) == (GameKey::Move { dx: 1, dy: -1i32 }),
        keycode_byte(107, shift) matches Some(b) && key_of(b) == (GameKey::Move { dx: -1i32, dy: 1 }),
        keycode_byte(109, shift) matches Some(b) && key_of(b) == (GameKey::Move { dx: 1, dy: 1 }),
        keycode_byte(102, shift) matches Some(b) && key_of(b) == (GameKey::Move { dx: -1i32, dy: -1i32 }),
        keycode_byte(104, shift) matches Some(b) && key_of(b) == (GameKey::Move { dx: 1, dy: -1i32 }),
{
}

/// The Q key pressed without shift types `q`, which quits the game; with
/// shift it types `Q`, which does not.
pub proof fn lemma_q_key_quits()
    ensures
        keycode_byte(16, false) == Some(113u8),
        key_of(113) == GameKey::Quit,
        keycode_byte(16, true) == Some(81u8),
        key_of(81) == GameKey::Char(81),
{
}

} // verus!
