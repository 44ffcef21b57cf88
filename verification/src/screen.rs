use vstd::prelude::*;

verus! {

pub const SCREEN_WIDTH: usize = 64;

pub const SCREEN_HEIGHT: usize = 32;

/// The blank framebuffer: 32 rows of 64 unlit cells.
pub open spec fn blank_screen() -> Seq<Seq<bool>> {
    Seq::new(32, |y: int| Seq::new(64, |x: int| false))
}

/// Well-formed frame: 32 rows of 64 cells each.
pub open spec fn screen_wf(screen: Seq<Seq<bool>>) -> bool {
    screen.len() == 32 && (forall|y: int| 0 <= y < 32 ==> (#[trigger] screen[y]).len() == 64)
}

/// Whether bit `bit` of a sprite row byte is set; bit 0 is the leftmost
/// (most significant) pixel of the row.
pub open spec fn sprite_row_bit(row: u8, bit: int) -> bool {
    row & (0x80u8 >> (bit as u8)) != 0
}

/// Whether the sprite `rows` drawn with its top-left corner at `(px, py)`
/// has a set bit covering cell `(sx, sy)`. A sprite is clipped at the frame
/// edge, never wrapped, so cells outside the frame are simply not drawn.
pub open spec fn sprite_covers(rows: Seq<u8>, px: int, py: int, sx: int, sy: int) -> bool {
    &&& py <= sy < py + rows.len()
    &&& px <= sx < px + 8
    &&& sprite_row_bit(rows[sy - py], sx - px)
}

/// The framebuffer after XOR-drawing `rows` at `(px, py)`: every covered
/// cell toggles, every other cell keeps its state, and the frame keeps its
/// 32 x 64 shape.
pub open spec fn draw_on_screen(
    screen: Seq<Seq<bool>>,
    px: int,
    py: int,
    rows: Seq<u8>,
) -> Seq<Seq<bool>> {
    Seq::new(
        32,
        |sy: int|
            Seq::new(
                64,
                |sx: int|
                    if sprite_covers(rows, px, py, sx, sy) {
                        !screen[sy][sx]
                    } else {
                        screen[sy][sx]
                    },
            ),
    )
}

/// Whether XOR-drawing `rows` at `(px, py)` turns some previously lit cell
/// off: the collision condition that the flag register reports. A cell that
/// merely turns on is no collision.
pub open spec fn draw_collides(screen: Seq<Seq<bool>>, px: int, py: int, rows: Seq<u8>) -> bool {
    exists|sy: int, sx: int|
        0 <= sy < 32 && 0 <= sx < 64 && sprite_covers(rows, px, py, sx, sy) && screen[sy][sx]
}

/// Draw law: XOR-drawing an identical sprite twice at the same position
/// restores the original framebuffer, and the second draw reports a
/// collision exactly when the first draw lit some covered cell — that is,
/// when some visible set bit of the sprite landed on an unlit cell. In
/// particular, a sprite with a visible set bit drawn twice on a blank
/// region always reports a collision on the second draw.
pub proof fn lemma_draw_double_toggle(screen: Seq<Seq<bool>>, px: int, py: int, rows: Seq<u8>)
    requires
        screen_wf(screen),
    ensures
        draw_on_screen(draw_on_screen(screen, px, py, rows), px, py, rows) == screen,
        draw_collides(draw_on_screen(screen, px, py, rows), px, py, rows) <==> (exists|
            sy: int,
            sx: int,
        |
            0 <= sy < 32 && 0 <= sx < 64 && sprite_covers(rows, px, py, sx, sy)
                && !screen[sy][sx]),
{
    let once = draw_on_screen(screen, px, py, rows);
    let twice = draw_on_screen(once, px, py, rows);
    assert forall|sy: int| 0 <= sy < 32 implies twice[sy] == screen[sy] by {
        assert forall|sx: int| 0 <= sx < 64 implies twice[sy][sx] == screen[sy][sx] by {
            assert(once[sy][sx] == if sprite_covers(rows, px, py, sx, sy) {
                !screen[sy][sx]
            } else {
                screen[sy][sx]
            });
        }
        assert(twice[sy] =~= screen[sy]);
    }
    assert(twice =~= screen);
    assert forall|sy: int, sx: int|
        0 <= sy < 32 && 0 <= sx < 64 && sprite_covers(rows, px, py, sx, sy) implies (once[sy][sx]
        <==> !screen[sy][sx]) by {
        assert(once[sy][sx] == !screen[sy][sx]);
    }
}

/// A rectangular grid of 32 x 64 boolean cells, row-major: the monochrome
/// framebuffer that sprite draws toggle.
#[derive(Debug, PartialEq, Eq)]
pub struct ScreenFrame {
    pub(crate) rows: Vec<Vec<bool>>,
}

impl ScreenFrame {
    /// Well-formed frame: 32 stored rows of 64 cells each. Constructors
    /// establish it and every method preserves it.
    pub open(crate) spec fn wf(&self) -> bool {
        self.rows.len() == 32 && (forall|y: int|
            0 <= y < 32 ==> (#[trigger] self.rows@[y])@.len() == 64)
    }

    /// The cell states, for use in specifications.
    pub open(crate) spec fn pixels(&self) -> Seq<Seq<bool>> {
        Seq::new(self.rows@.len(), |y: int| self.rows@[y]@)
    }

    /// A blank frame.
    pub fn new() -> (r: Self)
        ensures
            r.wf(),
            r.pixels() == blank_screen(),
    {
        let mut rows: Vec<Vec<bool>> = Vec::new();
        let mut y: usize = 0;
        while y < 32
            invariant
                y <= 32,
                rows.len() == y,
                forall|j: int| 0 <= j < y ==> (#[trigger] rows@[j])@ =~= Seq::new(64, |x: int| false),
            decreases 32 - y,
        {
            let mut row: Vec<bool> = Vec::new();
            let mut x: usize = 0;
            while x < 64
                invariant
                    x <= 64,
                    row.len() == x,
                    forall|i: int| 0 <= i < x ==> row@[i] == false,
                decreases 64 - x,
            {
                row.push(false);
                x = x + 1;
            }
            proof {
                assert(row@ =~= Seq::new(64, |x: int| false));
            }
            rows.push(row);
            y = y + 1;
        }
        let r = Self { rows };
        proof {
            assert(r.pixels() =~= blank_screen());
        }
        r
    }

    /// The state of the cell at column `x` of row `y`.
    pub fn get_pixel(&self, x: usize, y: usize) -> (r: bool)
        requires
            self.wf(),
            x < 64,
            y < 32,
        ensures
            r == self.pixels()[y as int][x as int],
    {
        self.rows[y][x]
    }

    /// Toggles the cell at column `x` of row `y` and reports whether it was
    /// lit before the toggle.
    pub fn toggle_pixel(&mut self, x: usize, y: usize) -> (was_lit: bool)
        requires
            old(self).wf(),
            x < 64,
            y < 32,
        ensures
            final(self).wf(),
            final(self).pixels() == old(self).pixels().update(
                y as int,
                old(self).pixels()[y as int].update(x as int, !old(self).pixels()[y as int][x as int]),
            ),
            was_lit == old(self).pixels()[y as int][x as int],
    {
        let was_lit = self.rows[y][x];
        self.rows[y][x] = !was_lit;
        proof {
            assert(final(self).pixels() =~= old(self).pixels().update(
                y as int,
                old(self).pixels()[y as int].update(
                    x as int,
                    !old(self).pixels()[y as int][x as int],
                ),
            ));
        }
        was_lit
    }

    /// Resets every cell to unlit.
    pub fn clear(&mut self)
        ensures
            final(self).wf(),
            final(self).pixels() == blank_screen(),
    {
        let fresh = Self::new();
        self.rows = fresh.rows;
    }

    /// A copy of the rows, outermost first, for external renderers.
    pub fn iter_rows(&self) -> (r: Vec<Vec<bool>>)
        requires
            self.wf(),
        ensures
            r.len() == 32,
            forall|y: int| 0 <= y < 32 ==> (#[trigger] r@[y])@ == self.pixels()[y],
    {
        let mut out: Vec<Vec<bool>> = Vec::new();
        let mut y: usize = 0;
        while y < 32
            invariant
                self.wf(),
                y <= 32,
                out.len() == y,
                forall|j: int| 0 <= j < y ==> (#[trigger] out@[j])@ == self.pixels()[j],
            decreases 32 - y,
        {
            let mut row: Vec<bool> = Vec::new();
            let mut x: usize = 0;
            while x < 64
                invariant
                    self.wf(),
                    y < 32,
                    x <= 64,
                    row.len() == x,
                    forall|i: int| 0 <= i < x ==> row@[i] == self.pixels()[y as int][i],
                decreases 64 - x,
            {
                row.push(self.rows[y][x]);
                x = x + 1;
            }
            proof {
                assert(row@ =~= self.pixels()[y as int]);
            }
            out.push(row);
            y = y + 1;
        }
        out
    }
}

} // verus!
