//! A hard-coded demo map.
//!
//! `#` is wall, `.` is floor. Rows are 40 cells wide.
use vstd::prelude::*;
use vstd::string::StringSliceAdditionalSpecFns;

verus! {

/// Width of the demo map.
pub const MAP_W: usize = 40;

/// Height of the demo map.
pub const MAP_H: usize = 12;

/// Row `y` of the demo map.
pub open spec fn demo_row(y: int) -> &'static str {
    if y == 0 || y == 11 {
        "########################################"
    } else if y == 1 {
        "#......................................#"
    } else if y == 2 {
        "#....######.........................####"
    } else if y == 3 {
        "#....#....#............................."
    } else if y == 4 {
        "#....#....#####........................."
    } else if y == 5 {
        "#....#........#........................."
    } else if y == 6 {
        "#....##########........................."
    } else if y == 7 {
        "#......................................."
    } else if y == 8 {
        "#..................########............."
    } else if y == 9 {
        "#..................#......#............."
    } else {
        "#..................########............."
    }
}

/// The tile of the demo map at `(x, y)`; blank off the map.
pub open spec fn demo_tile(x: int, y: int) -> u8 {
    if 0 <= x < MAP_W && 0 <= y < MAP_H {
        demo_row(y).spec_bytes()[x]
    } else {
        32
    }
}

/// Every row holds 40 ASCII bytes.
pub proof fn lemma_demo_rows(y: int)
    requires
        0 <= y < MAP_H,
    ensures
        demo_row(y).spec_bytes().len() == MAP_W,
        demo_row(y).spec_bytes() == Seq::new(demo_row(y)@.len(), |i: int| demo_row(y)@[i] as u8),
{
    reveal_strlit("########################################");
    reveal_strlit("#......................................#");
    reveal_strlit("#....######.........................####");
    reveal_strlit("#....#....#.............................");
    reveal_strlit("#....#....#####.........................");
    reveal_strlit("#....#........#.........................");
    reveal_strlit("#....##########.........................");
    reveal_strlit("#.......................................");
    reveal_strlit("#..................########.............");
    reveal_strlit("#..................#......#.............");
    vstd::string::is_ascii_spec_bytes(demo_row(y));
}

fn row(y: usize) -> (r: &'static str)
    requires
        y < MAP_H,
    ensures
        r == demo_row(y as int),
{
    if y == 0 || y == 11 {
        "########################################"
    } else if y == 1 {
        "#......................................#"
    } else if y == 2 {
        "#....######.........................####"
    } else if y == 3 {
        "#....#....#............................."
    } else if y == 4 {
        "#....#....#####........................."
    } else if y == 5 {
        "#....#........#........................."
    } else if y == 6 {
        "#....##########........................."
    } else if y == 7 {
        "#......................................."
    } else if y == 8 {
        "#..................########............."
    } else if y == 9 {
        "#..................#......#............."
    } else {
        "#..................########............."
    }
}

/// The fixed demo map.
pub struct DemoMap;

impl DemoMap {
    pub fn demo() -> Self {
        DemoMap
    }

    pub fn width(&self) -> (w: usize)
        ensures
            w == MAP_W,
    {
        MAP_W
    }

    pub fn height(&self) -> (h: usize)
        ensures
            h == MAP_H,
    {
        MAP_H
    }

    /// The tile at `(x, y)`, or a blank off the map.
    pub fn tile(&self, x: usize, y: usize) -> (t: u8)
        ensures
            t == demo_tile(x as int, y as int),
    {
        if y >= MAP_H || x >= MAP_W {
            return 32;
        }
        proof {
            lemma_demo_rows(y as int);
        }
        row(y).as_bytes()[x]
    }

    /// Whether `(x, y)` is floor.
    pub fn is_walkable(&self, x: i32, y: i32) -> (b: bool)
        ensures
            b == (0 <= x < MAP_W && 0 <= y < MAP_H && demo_tile(x as int, y as int) == 46),
    {
        if x < 0 || y < 0 {
            return false;
        }
        let (x, y) = (x as usize, y as usize);
        if x >= MAP_W || y >= MAP_H {
            return false;
        }
        self.tile(x, y) == 46
    }

    /// Default spawn position, which is floor.
    pub fn spawn(&self) -> (p: (usize, usize))
        ensures
            p == (2usize, 1usize),
            demo_tile(p.0 as int, p.1 as int) == 46,
    {
        proof {
            lemma_demo_rows(1);
            reveal_strlit("#......................................#");
        }
        (2, 1)
    }
}

} // verus!
