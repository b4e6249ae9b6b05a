//! Turning key bytes into game actions.
use vstd::prelude::*;

verus! {

/// What a key press asks the game to do.
#[derive(Clone, Copy, PartialEq, Eq, Structural)]
pub enum GameKey {
    /// Step by `(dx, dy)`.
    Move { dx: i32, dy: i32 },
    /// Open or close the options menu.
    Options,
    /// Another printable character.
    Char(u8),
    /// Leave the game.
    Quit,
    /// Anything else.
    Unknown,
}

/// The action of key byte `byte`: vi keys `h j k l y u b n` and the keypad
/// digits move (diagonals included), `o`/`O` toggles the options, `q`,
/// Ctrl-C and Ctrl-D quit, other printable ASCII is passed on.
pub open spec fn key_of(byte: u8) -> GameKey {
    if byte == 104 || byte == 52 {
        GameKey::Move { dx: -1i32, dy: 0 }
    } else if byte == 108 || byte == 54 {
        GameKey::Move { dx: 1, dy: 0 }
    } else if byte == 107 || byte == 56 {
        GameKey::Move { dx: 0, dy: -1i32 }
    } else if byte == 106 || byte == 50 {
        GameKey::Move { dx: 0, dy: 1 }
    } else if byte == 121 || byte == 55 {
        GameKey::Move { dx: -1i32, dy: -1i32 }
    } else if byte == 117 || byte == 57 {
        GameKey::Move { dx: 1, dy: -1i32 }
    } else if byte == 98 || byte == 49 {
        GameKey::Move { dx: -1i32, dy: 1 }
    } else if byte == 110 || byte == 51 {
        GameKey::Move { dx: 1, dy: 1 }
    } else if byte == 79 || byte == 111 {
        GameKey::Options
    } else if byte == 113 || byte == 3 || byte == 4 {
        GameKey::Quit
    } else if 32 <= byte <= 126 {
        GameKey::Char(byte)
    } else {
        GameKey::Unknown
    }
}

/// Decodes one key byte.
pub fn decode_key(byte: u8) -> (key: GameKey)
    ensures
        key == key_of(byte),
{
    match byte {
        104 | 52 => GameKey::Move { dx: -1, dy: 0 },
        108 | 54 => GameKey::Move { dx: 1, dy: 0 },
        107 | 56 => GameKey::Move { dx: 0, dy: -1 },
        106 | 50 => GameKey::Move { dx: 0, dy: 1 },
        121 | 55 => GameKey::Move { dx: -1, dy: -1 },
        117 | 57 => GameKey::Move { dx: 1, dy: -1 },
        98 | 49 => GameKey::Move { dx: -1, dy: 1 },
        110 | 51 => GameKey::Move { dx: 1, dy: 1 },
        79 | 111 => GameKey::Options,
        113 | 0x03 | 0x04 => GameKey::Quit,
        32..=126 => GameKey::Char(byte),
        _ => GameKey::Unknown,
    }
}

/// Every movement key steps by at most one cell along each axis.
pub proof fn lemma_moves_are_single_steps(byte: u8)
    ensures
        key_of(byte) matches GameKey::Move { dx, dy } ==> -1 <= dx <= 1 && -1 <= dy <= 1 && (dx
            != 0 || dy != 0),
{
}

/// The digit keys move as they sit on a numeric keypad: 7 8 9 step up,
/// 1 2 3 step down, 7 4 1 step left, 9 6 3 step right; 5 does not move.
pub proof fn lemma_keypad_layout(d: u8)
    requires
        49 <= d <= 57,
    ensures
        d != 53 ==> key_of(d) == (GameKey::Move {
            dx: ((d - 49) % 3 - 1) as i32,
            dy: (1 - (d - 49) / 3) as i32,
        }),
        d == 53 ==> key_of(d) == GameKey::Char(53),
{
}

/// The vi keys move as the keypad digits do: `h` as 4, `l` as 6, `k` as 8,
/// `j` as 2, `y` as 7, `u` as 9, `b` as 1 and `n` as 3.
pub proof fn lemma_vi_keys_match_keypad()
    ensures
        key_of(104) == key_of(52),
        key_of(108) == key_of(54),
        key_of(107) == key_of(56),
        key_of(106) == key_of(50),
        key_of(121) == key_of(55),
        key_of(117) == key_of(57),
        key_of(98) == key_of(49),
        key_of(110) == key_of(51),
{
}

/// Exactly `q`, Ctrl-C and Ctrl-D quit; exactly `o` and `O` toggle the
/// options; every other printable byte that does not move reaches the game
/// as itself.
pub proof fn lemma_key_kinds(byte: u8)
    ensures
        (key_of(byte) == GameKey::Quit) <==> (byte == 113 || byte == 3 || byte == 4),
        (key_of(byte) == GameKey::Options) <==> (byte == 111 || byte == 79),
        32 <= byte <= 126 && byte != 113 && byte != 111 && byte != 79 && !(key_of(byte) is Move)
            ==> key_of(byte) == GameKey::Char(byte),
        !(32 <= byte <= 126) && byte != 3 && byte != 4 ==> key_of(byte) == GameKey::Unknown,
{
}

} // verus!
