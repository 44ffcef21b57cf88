use vstd::prelude::*;

use crate::screen::sprite_row_bit;

verus! {

/// A position on the framebuffer grid, in cells.
#[derive(Clone, Copy, Debug, PartialEq, Eq, Structural)]
pub struct Point {
    pub x: u8,
    pub y: u8,
}

/// Strict row-major order on sprite pixels: `a` comes before `b` when it
/// lies on an earlier row, or further left in the same row.
pub open spec fn row_major_before(a: Point, b: Point) -> bool {
    a.y < b.y || (a.y == b.y && a.x < b.x)
}

/// A sprite: a stack of 8-bit row bitmaps, read from memory starting at
/// the index register. Bit 0x80 of a row is its leftmost pixel.
#[derive(Debug, PartialEq, Eq)]
pub struct Sprite {
    pub(crate) data: Vec<u8>,
}

impl Sprite {
    /// The row bitmaps, for use in specifications.
    pub open(crate) spec fn rows(&self) -> Seq<u8> {
        self.data@
    }

    pub fn new(value: Vec<u8>) -> (r: Self)
        ensures
            r.rows() == value@,
    {
        Self { data: value }
    }

    /// The positions, relative to the sprite's top-left corner, of its set
    /// bits: exactly the pixels the sprite toggles, in strict row-major
    /// order — so each appears once.
    pub fn iter_pixels(&self) -> (r: Vec<Point>)
        requires
            self.rows().len() <= 255,
        ensures
            forall|p: Point|
                #[trigger] r@.contains(p) <==> p.y < self.rows().len() && p.x < 8
                    && sprite_row_bit(self.rows()[p.y as int], p.x as int),
            forall|i: int, j: int|
                0 <= i < j < r@.len() ==> row_major_before(r@[i], r@[j]),
    {
        let mut out: Vec<Point> = Vec::new();
        let mut y: usize = 0;
        while y < self.data.len()
            invariant
                self.rows().len() <= 255,
                y <= self.rows().len(),
                forall|p: Point|
                    #[trigger] out@.contains(p) <==> p.y < y && p.x < 8 && sprite_row_bit(
                        self.rows()[p.y as int],
                        p.x as int,
                    ),
                forall|i: int, j: int|
                    0 <= i < j < out@.len() ==> row_major_before(out@[i], out@[j]),
                forall|i: int| 0 <= i < out@.len() ==> (#[trigger] out@[i]).y < y,
            decreases self.data.len() - y,
        {
            let row = self.data[y];
            let mut x: usize = 0;
            while x < 8
                invariant
                    self.rows().len() <= 255,
                    y < self.rows().len(),
                    x <= 8,
                    row == self.rows()[y as int],
                    forall|p: Point|
                        #[trigger] out@.contains(p) <==> (p.y < y && p.x < 8 && sprite_row_bit(
                            self.rows()[p.y as int],
                            p.x as int,
                        )) || (p.y == y && p.x < x && sprite_row_bit(
                            self.rows()[p.y as int],
                            p.x as int,
                        )),
                    forall|i: int, j: int|
                        0 <= i < j < out@.len() ==> row_major_before(out@[i], out@[j]),
                    forall|i: int|
                        0 <= i < out@.len() ==> (#[trigger] out@[i]).y < y || (out@[i].y == y
                            && out@[i].x < x),
                decreases 8 - x,
            {
                proof {
                    broadcast use vstd::seq_lib::lemma_seq_contains_after_push;

                }
                let bit: u8 = 0x80u8 >> (x as u8);
                if row & bit != 0 {
                    let p = Point { x: x as u8, y: y as u8 };
                    out.push(p);
                }
                x = x + 1;
            }
            y = y + 1;
        }
        out
    }
}

} // verus!
