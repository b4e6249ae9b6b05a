//! The walking demo: an `@` on the fixed demo map.
use vstd::prelude::*;
use vstd::string::StringSliceAdditionalSpecFns;
use crate::engine::{BTerm, GameState, TickResult, cls_bytes};
use crate::input::{GameKey, key_of};
use crate::io::Console;
use crate::map::{DemoMap, MAP_W, MAP_H, demo_tile};

verus! {

/// The byte drawn at `(x, y)` with the player at `(px, py)`.
pub open spec fn demo_cell(x: int, y: int, px: int, py: int) -> u8 {
    if x == px && y == py {
        64
    } else {
        demo_tile(x, y)
    }
}

/// The first `n` cells of row `y`.
pub open spec fn demo_row_bytes(y: int, n: int, px: int, py: int) -> Seq<u8>
    decreases n,
{
    if n <= 0 {
        Seq::empty()
    } else {
        demo_row_bytes(y, n - 1, px, py).push(demo_cell(n - 1, y, px, py))
    }
}

/// The first `m` rows, each ended by a newline.
pub open spec fn demo_grid_bytes(m: int, px: int, py: int) -> Seq<u8>
    decreases m,
{
    if m <= 0 {
        Seq::empty()
    } else {
        demo_grid_bytes(m - 1, px, py) + demo_row_bytes(m - 1, MAP_W as int, px, py).push(10)
    }
}

/// The demo screen with the player at `(px, py)`.
pub open spec fn demo_screen(px: int, py: int) -> Seq<u8> {
    cls_bytes() + "riscvrogue -- a roguelike on bare-metal RISC-V\n\n".spec_bytes() + demo_grid_bytes(
        MAP_H as int,
        px,
        py,
    ).push(10)
}

/// Where the player stands after `key`, and whether the demo goes on.
pub open spec fn demo_step(px: int, py: int, key: GameKey) -> (int, int, TickResult) {
    match key {
        GameKey::Quit => (px, py, TickResult::Quit),
        GameKey::Move { dx, dy } => {
            let nx = px + dx;
            let ny = py + dy;
            if 0 <= nx < MAP_W && 0 <= ny < MAP_H && demo_tile(nx, ny) == 46 {
                (nx, ny, TickResult::Continue)
            } else {
                (px, py, TickResult::Continue)
            }
        },
        _ => (px, py, TickResult::Continue),
    }
}

/// What the demo writes in answer to `key`.
pub open spec fn demo_key_output(key: GameKey) -> Seq<u8> {
    if key == GameKey::Quit {
        "\nThanks for playing!".spec_bytes().push(10)
    } else {
        Seq::empty()
    }
}

/// What one tick of the demo writes for `key`.
pub open spec fn demo_output(px: int, py: int, key: GameKey) -> Seq<u8> {
    demo_screen(px, py) + "Move: h/j/k/l, arrows, keypad 1-9   Quit: q".spec_bytes().push(10)
        + demo_key_output(key)
}

/// The player of the walking demo.
pub struct DemoState {
    map: DemoMap,
    px: usize,
    py: usize,
}

impl View for DemoState {
    type V = (int, int);

    closed spec fn view(&self) -> (int, int) {
        (self.px as int, self.py as int)
    }
}

impl DemoState {
    #[verifier::type_invariant]
    closed spec fn inv(&self) -> bool {
        self.px < MAP_W && self.py < MAP_H
    }

    /// The player at the demo map's spawn point, which is floor.
    pub fn new() -> (s: Self)
        ensures
            s@ == (2int, 1int),
            demo_tile(s@.0, s@.1) == 46,
    {
        let map = DemoMap::demo();
        let (px, py) = map.spawn();
        Self { map, px, py }
    }
}

/// Draws the demo map with the player at `(px, py)`.
pub fn render<C: Console + ?Sized>(ctx: &mut BTerm<'_, C>, map: &DemoMap, px: usize, py: usize)
    ensures
        final(ctx).output() == old(ctx).output() + demo_screen(px as int, py as int),
{
    let ghost o0 = ctx.output();
    ctx.cls();
    ctx.print("riscvrogue -- a roguelike on bare-metal RISC-V\n\n");
    let ghost head = o0 + cls_bytes() + "riscvrogue -- a roguelike on bare-metal RISC-V\n\n".spec_bytes();

    let mut y: usize = 0;
    while y < map.height()
        invariant
            y <= MAP_H,
            ctx.output() == head + demo_grid_bytes(y as int, px as int, py as int),
        decreases MAP_H - y,
    {
        let ghost row_start = ctx.output();
        let mut x: usize = 0;
        while x < map.width()
            invariant
                y < MAP_H,
                x <= MAP_W,
                ctx.output() == row_start + demo_row_bytes(y as int, x as int, px as int, py as int),
            decreases MAP_W - x,
        {
            let ch = if x == px && y == py {
                64
            } else {
                map.tile(x, y)
            };
            ctx.put_char(ch);
            x = x + 1;
        }
        ctx.put_char(10);
        assert(head + demo_grid_bytes(y + 1, px as int, py as int) =~= row_start
            + demo_row_bytes(y as int, MAP_W as int, px as int, py as int).push(10));
        y = y + 1;
    }
    ctx.put_char(10);
    assert(ctx.output() =~= o0 + demo_screen(px as int, py as int));
}

impl DemoState {
    /// Reacts to `key`: a move walks onto floor, `q` says goodbye and
    /// leaves, anything else is ignored.
    pub fn handle_key<C: Console + ?Sized>(&mut self, key: GameKey, ctx: &mut BTerm<'_, C>) -> (r: TickResult)
        requires
            key matches GameKey::Move { dx, dy } ==> i32::MIN <= old(self)@.0 + dx <= i32::MAX
                && i32::MIN <= old(self)@.1 + dy <= i32::MAX,
        ensures
            (final(self)@.0, final(self)@.1, r) == demo_step(old(self)@.0, old(self)@.1, key),
            final(ctx).output() == old(ctx).output() + demo_key_output(key),
    {
        proof {
            use_type_invariant(&*self);
        }
        let ghost o0 = ctx.output();
        let r = match key {
            GameKey::Quit => {
                ctx.print("\nThanks for playing!");
                ctx.put_char(10);
                TickResult::Quit
            },
            GameKey::Move { dx, dy } => {
                let nx = self.px as i32 + dx;
                let ny = self.py as i32 + dy;
                if self.map.is_walkable(nx, ny) {
                    self.px = nx as usize;
                    self.py = ny as usize;
                }
                TickResult::Continue
            },
            GameKey::Options | GameKey::Char(_) => TickResult::Continue,
            GameKey::Unknown => TickResult::Continue,
        };
        assert(ctx.output() =~= o0 + demo_key_output(key));
        r
    }
}

impl GameState for DemoState {
    /// Draws the map, waits for a key and handles it. Whatever key arrives,
    /// the new position and the bytes written are those `demo_step` and
    /// `demo_output` give for it.
    fn tick<C: Console + ?Sized>(&mut self, ctx: &mut BTerm<'_, C>) -> (r: TickResult)
        ensures
            exists|key: GameKey|
                {
                    &&& exists|byte: u8| key == key_of(byte)
                    &&& (final(self)@.0, final(self)@.1, r) == #[trigger] demo_step(old(self)@.0, old(self)@.1, key)
                    &&& final(ctx).output() == old(ctx).output() + demo_output(old(self)@.0, old(self)@.1, key)
                },
    {
        proof {
            use_type_invariant(&*self);
        }
        let ghost o0 = ctx.output();
        let ghost v0 = self@;
        render(ctx, &self.map, self.px, self.py);
        ctx.print("Move: h/j/k/l, arrows, keypad 1-9   Quit: q");
        ctx.put_char(10);

        let key = ctx.key();
        let ghost kb = choose|byte: u8| key == key_of(byte);
        proof {
            crate::input::lemma_moves_are_single_steps(kb);
        }
        let r = self.handle_key(key, ctx);
        assert(key == key_of(kb));
        assert(ctx.output() =~= o0 + demo_output(v0.0, v0.1, key));
        assert((self@.0, self@.1, r) == demo_step(v0.0, v0.1, key));
        r
    }
}

/// The demo player only ever stands on floor: a tick keeps that so.
pub proof fn lemma_demo_step_keeps_floor(px: int, py: int, key: GameKey)
    requires
        demo_tile(px, py) == 46,
    ensures
        demo_tile(demo_step(px, py, key).0, demo_step(px, py, key).1) == 46,
{
}

} // verus!
