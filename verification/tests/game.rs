use riscvrogue::demo::DemoState;
use riscvrogue::dungeon::DungeonState;
use riscvrogue::engine::{BTerm, GameState, TickResult};
use riscvrogue::input::{decode_key, GameKey};
use riscvrogue::io::{write_decimal, Console, Transcript};
use riscvrogue::map::DemoMap;

/// A console that records what is written and replays scripted keys.
struct Script {
    out: Vec<u8>,
    keys: Vec<u8>,
    next: usize,
}

impl Script {
    fn new(keys: &[u8]) -> Self {
        Script { out: Vec::new(), keys: keys.to_vec(), next: 0 }
    }

    fn text(&self) -> String {
        String::from_utf8_lossy(&self.out).into_owned()
    }
}

impl Console for Script {
    fn output(&self) -> Transcript {
        unreachable!()
    }

    fn write_byte(&mut self, byte: u8) {
        self.out.push(byte);
    }

    fn read_byte_blocking(&mut self) -> u8 {
        let b = self.keys[self.next];
        self.next += 1;
        b
    }
}

fn tick_once<S: GameState>(state: &mut S, key: u8) -> (TickResult, String) {
    let mut console = Script::new(&[key]);
    let r = {
        let mut ctx = BTerm::new(&mut console);
        state.tick(&mut ctx)
    };
    (r, console.text())
}

fn is_move(k: GameKey, x: i32, y: i32) -> bool {
    matches!(k, GameKey::Move { dx, dy } if dx == x && dy == y)
}

#[test]
fn decode_vi_keys_and_keypad() {
    assert!(is_move(decode_key(b'h'), -1, 0));
    assert!(is_move(decode_key(b'4'), -1, 0));
    assert!(is_move(decode_key(b'l'), 1, 0));
    assert!(is_move(decode_key(b'k'), 0, -1));
    assert!(is_move(decode_key(b'2'), 0, 1));
    assert!(is_move(decode_key(b'y'), -1, -1));
    assert!(is_move(decode_key(b'9'), 1, -1));
    assert!(is_move(decode_key(b'b'), -1, 1));
    assert!(is_move(decode_key(b'n'), 1, 1));
    assert!(matches!(decode_key(b'O'), GameKey::Options));
    assert!(matches!(decode_key(b'o'), GameKey::Options));
    assert!(matches!(decode_key(b'q'), GameKey::Quit));
    assert!(matches!(decode_key(0x03), GameKey::Quit));
    assert!(matches!(decode_key(0x04), GameKey::Quit));
    assert!(matches!(decode_key(b'x'), GameKey::Char(b'x')));
    assert!(matches!(decode_key(b' '), GameKey::Char(b' ')));
    assert!(matches!(decode_key(0x7f), GameKey::Unknown));
    assert!(matches!(decode_key(b'\n'), GameKey::Unknown));
}

#[test]
fn demo_map_tiles() {
    let map = DemoMap::demo();
    assert_eq!(map.width(), 40);
    assert_eq!(map.height(), 12);
    assert_eq!(map.tile(0, 0), b'#');
    assert_eq!(map.tile(5, 2), b'#');
    assert_eq!(map.tile(39, 7), b'.');
    assert_eq!(map.tile(40, 0), b' ');
    assert_eq!(map.tile(0, 12), b' ');
    assert!(!map.is_walkable(-1, 1));
    assert!(!map.is_walkable(40, 3));
    assert!(!map.is_walkable(0, 1));
    assert!(map.is_walkable(1, 1));
}

#[test]
fn demo_spawn_is_floor() {
    let map = DemoMap::demo();
    let (x, y) = map.spawn();
    assert_eq!((x, y), (2, 1));
    assert!(map.is_walkable(x as i32, y as i32));
    assert_eq!(map.tile(x, y), b'.');
}

#[test]
fn demo_walks_and_quits() {
    let mut state = DemoState::new();
    let (r, screen) = tick_once(&mut state, b'l');
    assert!(matches!(r, TickResult::Continue));
    assert!(screen.starts_with("\x1b[2J\x1b[Hriscvrogue -- a roguelike on bare-metal RISC-V\n\n"));
    assert!(screen.contains("#.@....."));
    assert!(screen.ends_with("Move: h/j/k/l, arrows, keypad 1-9   Quit: q\n"));
    let (_, screen) = tick_once(&mut state, b'k');
    assert!(screen.contains("#..@...."));
    // Walking into the wall above keeps the player in place.
    let (_, screen) = tick_once(&mut state, b'h');
    assert!(screen.contains("#..@...."));
    let (r, screen) = tick_once(&mut state, b'q');
    assert!(matches!(r, TickResult::Quit));
    assert!(screen.contains("#.@....."));
    assert!(screen.ends_with("\nThanks for playing!\n"));
}

#[test]
fn bterm_escapes() {
    let mut console = Script::new(&[b'j']);
    {
        let mut ctx = BTerm::new(&mut console);
        ctx.cls();
        ctx.print("hi");
        ctx.put_char(b'!');
        ctx.set_sgr(93);
        ctx.reset_style();
        ctx.set_font(2);
        write_decimal(ctx.console_mut(), -120);
        assert!(is_move(ctx.key(), 0, 1));
    }
    assert_eq!(console.text(), "\x1b[2J\x1b[Hhi!\x1b[93m\x1b[0m\x1b[2z-120");
}

#[test]
fn decimal_extremes() {
    let mut console = Script::new(&[]);
    write_decimal(&mut console, i32::MIN);
    console.write_byte(b' ');
    write_decimal(&mut console, 0);
    console.write_byte(b' ');
    write_decimal(&mut console, i32::MAX);
    assert_eq!(console.text(), "-2147483648 0 2147483647");
}

#[test]
fn dungeon_first_frame() {
    let mut state = DungeonState::new();
    let (r, screen) = tick_once(&mut state, b'x');
    assert!(matches!(r, TickResult::Continue));
    // The pending font is sent first, then the screen is cleared.
    assert!(screen.starts_with("\x1b[0z\x1b[2J\x1b[Hriscvrogue -- dungeon sample state\n\n"));
    assert!(screen.contains("\nMove: h/j/k/l, arrows, keypad 1-9   Quit: q\nHP: 20  STR: 10  XP: 0\nPress O for options"));
    // The player is drawn in yellow.
    assert!(screen.contains("\x1b[93m@\x1b[0m"));
    // The font is sent once only.
    let (_, screen) = tick_once(&mut state, b'x');
    assert!(screen.starts_with("\x1b[2J\x1b[H"));
}

#[test]
fn dungeon_quit() {
    let mut state = DungeonState::new_with_seed(7);
    let (r, screen) = tick_once(&mut state, b'q');
    assert!(matches!(r, TickResult::Quit));
    assert!(screen.ends_with("Press O for options\nLeaving dungeon...\n"));
}

#[test]
fn dungeon_options_menu() {
    let mut state = DungeonState::new_with_seed(11);
    let (r, _) = tick_once(&mut state, b'o');
    assert!(matches!(r, TickResult::Continue));
    let (_, screen) = tick_once(&mut state, b'c');
    assert!(screen.contains(
        "=== Options ===\nF: font       IBM437 8x8 regular\nG: graphics   on\nC: color      on\nO: close options\n"
    ));
    // Colour is now off: no escapes around the glyphs any more.
    let (_, screen) = tick_once(&mut state, b'f');
    assert!(screen.contains("C: color      off\n"));
    assert!(!screen.contains("\x1b[93m"));
    // The new font is announced on the next tick.
    let (_, screen) = tick_once(&mut state, b'g');
    assert!(screen.starts_with("\x1b[1z"));
    assert!(screen.contains("F: font       IBM437 8x8 bold\n"));
    let (_, screen) = tick_once(&mut state, b'o');
    assert!(screen.contains("G: graphics   off\n"));
    let (_, screen) = tick_once(&mut state, b'x');
    assert!(!screen.contains("=== Options ==="));
    // With graphics off, the map uses plain ASCII glyphs and the player '@'.
    assert!(screen.contains('@'));
    let (r, _) = tick_once(&mut state, b'o');
    assert!(matches!(r, TickResult::Continue));
    let (r, screen) = tick_once(&mut state, b'q');
    assert!(matches!(r, TickResult::Quit));
    assert!(screen.ends_with("O: close options\n\nLeaving dungeon...\n"));
}

#[test]
fn dungeon_same_seed_same_dungeon() {
    let mut a = DungeonState::new_with_seed(0x1234_5678);
    let mut b = DungeonState::new_with_seed(0x1234_5678);
    for key in [b'x', b'l', b'j', b'h', b'k', b'n'] {
        let (_, sa) = tick_once(&mut a, key);
        let (_, sb) = tick_once(&mut b, key);
        assert_eq!(sa, sb);
    }
}

#[test]
fn dungeon_walks_without_crashing() {
    for seed in 0..40u64 {
        let mut state = DungeonState::new_with_seed(seed);
        let keys = b"hjklyubn1234678924hhhhjjjjkkkkllllyyyuuubbbnnn";
        for &k in keys.iter() {
            let (r, screen) = tick_once(&mut state, k);
            assert!(matches!(r, TickResult::Continue));
            assert!(screen.contains("HP: "));
        }
    }
}

#[test]
fn dungeon_font_cycles_and_toggles_return() {
    let mut state = DungeonState::new_with_seed(5);
    tick_once(&mut state, b'o');
    let (_, first) = tick_once(&mut state, b'f');
    assert!(first.contains("F: font       IBM437 8x8 regular\n"));
    let (_, s) = tick_once(&mut state, b'F');
    assert!(s.starts_with("\x1b[1z"));
    assert!(s.contains("F: font       IBM437 8x8 bold\n"));
    let (_, s) = tick_once(&mut state, b'f');
    assert!(s.starts_with("\x1b[2z"));
    assert!(s.contains("F: font       IBM437 9x14 regular\n"));
    let (_, s) = tick_once(&mut state, b'g');
    assert!(s.starts_with("\x1b[0z"));
    assert!(s.contains("F: font       IBM437 8x8 regular\n"));
    assert!(s.contains("G: graphics   on\n"));
    let (_, s) = tick_once(&mut state, b'G');
    assert!(s.contains("G: graphics   off\n"));
    let (_, s) = tick_once(&mut state, b'c');
    assert!(s.contains("G: graphics   on\n"));
    assert!(s.contains("C: color      on\n"));
    let (_, s) = tick_once(&mut state, b'C');
    assert!(s.contains("C: color      off\n"));
    let (_, s) = tick_once(&mut state, b'o');
    assert!(s.contains("C: color      on\n"));
    // Closed again: the menu is gone and the options are back.
    let (_, s) = tick_once(&mut state, b'x');
    assert!(!s.contains("=== Options ==="));
    assert!(s.contains("\x1b[93m@\x1b[0m"));
}

/// The map part of a plain (no colour, no graphics) dungeon screen.
fn map_rows(screen: &str) -> Vec<Vec<u8>> {
    let start = screen.find("dungeon sample state\n\n").unwrap() + "dungeon sample state\n\n".len();
    screen[start..].lines().take(30).map(|l| l.as_bytes().to_vec()).collect()
}

fn find(rows: &[Vec<u8>], ch: u8) -> Vec<(i32, i32)> {
    let mut out = Vec::new();
    for (y, row) in rows.iter().enumerate() {
        for (x, &c) in row.iter().enumerate() {
            if c == ch {
                out.push((x as i32, y as i32));
            }
        }
    }
    out
}

fn step_key(dx: i32, dy: i32) -> u8 {
    match (dx, dy) {
        (-1, 0) => b'h',
        (1, 0) => b'l',
        (0, -1) => b'k',
        (0, 1) => b'j',
        (-1, -1) => b'y',
        (1, -1) => b'u',
        (-1, 1) => b'b',
        _ => b'n',
    }
}

/// The first step of a shortest walk over visible floor from the player
/// to a cell next to a monster, or the step onto an adjacent monster.
fn next_step(rows: &[Vec<u8>]) -> Option<(i32, i32)> {
    let me = find(rows, b'@')[0];
    let monsters = find(rows, b'M');
    let near = |p: (i32, i32)| monsters.iter().find(|m| (m.0 - p.0).abs() <= 1 && (m.1 - p.1).abs() <= 1).copied();
    if let Some(m) = near(me) {
        return Some((m.0 - me.0, m.1 - me.1));
    }
    let walkable = |p: (i32, i32)| {
        p.0 >= 0 && p.1 >= 0 && (p.1 as usize) < rows.len() && (p.0 as usize) < rows[p.1 as usize].len()
            && matches!(rows[p.1 as usize][p.0 as usize], b'.' | b',' | b'+')
    };
    let mut first: std::collections::HashMap<(i32, i32), (i32, i32)> = std::collections::HashMap::new();
    let mut queue = std::collections::VecDeque::new();
    for dy in -1..=1 {
        for dx in -1..=1 {
            let p = (me.0 + dx, me.1 + dy);
            if (dx != 0 || dy != 0) && walkable(p) && !first.contains_key(&p) {
                first.insert(p, (dx, dy));
                queue.push_back(p);
            }
        }
    }
    while let Some(p) = queue.pop_front() {
        if near(p).is_some() {
            return first.get(&p).copied();
        }
        for dy in -1..=1 {
            for dx in -1..=1 {
                let q = (p.0 + dx, p.1 + dy);
                if walkable(q) && !first.contains_key(&q) && q != me {
                    let s = first[&p];
                    first.insert(q, s);
                    queue.push_back(q);
                }
            }
        }
    }
    None
}

#[test]
fn dungeon_killing_a_monster_gives_experience() {
    let mut kills = 0;
    for seed in 0..40u64 {
        let mut state = DungeonState::new_with_seed(seed);
        for key in [b'o', b'g', b'c', b'o'] {
            tick_once(&mut state, key);
        }
        let (_, mut screen) = tick_once(&mut state, b'x');
        for _ in 0..60 {
            let rows = map_rows(&screen);
            let Some((dx, dy)) = next_step(&rows) else { break };
            let me = find(&rows, b'@')[0];
            let target = (me.0 + dx, me.1 + dy);
            let attacking = rows[target.1 as usize][target.0 as usize] == b'M';
            let monsters_before = find(&rows, b'M').len();
            tick_once(&mut state, step_key(dx, dy));
            let (_, after) = tick_once(&mut state, b'x');
            if attacking {
                // Damage 5 kills a fresh monster (5 HP) at once: no strike back.
                assert!(after.contains("HP: 20  STR: 10  XP: 10\n"), "seed {seed}");
                let rows_after = map_rows(&after);
                assert_eq!(find(&rows_after, b'M').len(), monsters_before - 1);
                assert_eq!(find(&rows_after, b'@')[0], me);
                kills += 1;
                break;
            }
            screen = after;
        }
    }
    assert!(kills > 0);
}

#[test]
fn handling_keys_directly() {
    let mut demo = DemoState::new();
    let mut console = Script::new(&[]);
    {
        let mut ctx = BTerm::new(&mut console);
        assert!(matches!(demo.handle_key(GameKey::Move { dx: 1, dy: 0 }, &mut ctx), TickResult::Continue));
        assert!(matches!(demo.handle_key(GameKey::Move { dx: 0, dy: -1 }, &mut ctx), TickResult::Continue));
        assert!(matches!(demo.handle_key(GameKey::Quit, &mut ctx), TickResult::Quit));
    }
    assert_eq!(console.text(), "\nThanks for playing!\n");
    // The player moved right, not up into the wall: the next screen shows it.
    let (_, screen) = tick_once(&mut demo, b'x');
    assert!(screen.contains("#..@...."));

    let mut dungeon = DungeonState::new_with_seed(3);
    let mut console = Script::new(&[]);
    {
        let mut ctx = BTerm::new(&mut console);
        dungeon.show(&mut ctx);
        assert!(matches!(dungeon.handle_key(GameKey::Options, &mut ctx), TickResult::Continue));
        assert!(matches!(dungeon.handle_key(GameKey::Char(b'c'), &mut ctx), TickResult::Continue));
        assert!(matches!(dungeon.handle_key(GameKey::Quit, &mut ctx), TickResult::Quit));
    }
    let text = console.text();
    assert!(text.starts_with("\x1b[0z\x1b[2J\x1b[H"));
    assert!(text.ends_with("Press O for options\nLeaving dungeon...\n"));
    let (_, screen) = tick_once(&mut dungeon, b'x');
    assert!(screen.contains("C: color      off\n"));
}
