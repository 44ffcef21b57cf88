use vstd::prelude::*;

use crate::keyboard::Keyboard;
use crate::nibble::Nibble;
use crate::screen::blank_screen;
use crate::screen::draw_collides;
use crate::screen::draw_on_screen;
use crate::screen::screen_wf;
use crate::screen::sprite_covers;
use crate::screen::sprite_row_bit;
use crate::screen::ScreenFrame;
use crate::sprite::Point;
use crate::sprite::Sprite;

verus! {

/// A timer value decremented by one tick, saturating at zero.
pub open spec fn saturating_dec(v: u8) -> u8 {
    if v == 0 {
        0
    } else {
        (v - 1) as u8
    }
}

/// The capability the interpreter drives: framebuffer mutation, keyboard
/// state, the delay and sound timer registers, and randomness. Each
/// method's contract pins its effect on the abstract state; randomness is
/// the one result about which nothing is promised.
pub trait Platform: Sized {
    /// The platform's own well-formedness; `BasePlatform::new` establishes
    /// it and every method preserves it.
    spec fn inv(&self) -> bool;

    /// The framebuffer contents.
    spec fn screen_view(&self) -> Seq<Seq<bool>>;

    /// The delay timer register.
    spec fn delay_value(&self) -> u8;

    /// The sound timer register.
    spec fn sound_value(&self) -> u8;

    /// Whether key `key` is held down; false outside the sixteen keys.
    spec fn key_down_view(&self, key: int) -> bool;

    /// The tracked key release that has not yet been consumed, if any.
    spec fn pending_key(&self) -> Option<Nibble>;

    /// A byte about which nothing is promised; the rest of the platform
    /// state is untouched.
    fn get_random_byte(&mut self) -> (r: u8)
        requires
            old(self).inv(),
        ensures
            final(self).inv(),
            final(self).screen_view() == old(self).screen_view(),
            final(self).delay_value() == old(self).delay_value(),
            final(self).sound_value() == old(self).sound_value(),
            forall|k: int| #[trigger] final(self).key_down_view(k) == old(self).key_down_view(k),
            final(self).pending_key() == old(self).pending_key(),
    ;

    /// XOR-draws the sprite with its top-left corner at `pos`, clipping at
    /// the frame edge, and reports whether a previously lit cell went out.
    fn draw_sprite(&mut self, pos: Point, sprite: Sprite) -> (r: bool)
        requires
            old(self).inv(),
            pos.x < 64,
            pos.y < 32,
        ensures
            final(self).inv(),
            final(self).screen_view() == draw_on_screen(
                old(self).screen_view(),
                pos.x as int,
                pos.y as int,
                sprite.rows(),
            ),
            r == draw_collides(old(self).screen_view(), pos.x as int, pos.y as int, sprite.rows()),
            final(self).delay_value() == old(self).delay_value(),
            final(self).sound_value() == old(self).sound_value(),
            forall|k: int| #[trigger] final(self).key_down_view(k) == old(self).key_down_view(k),
            final(self).pending_key() == old(self).pending_key(),
    ;

    /// Turns every framebuffer cell off.
    fn clear_screen(&mut self)
        requires
            old(self).inv(),
        ensures
            final(self).inv(),
            final(self).screen_view() == blank_screen(),
            final(self).delay_value() == old(self).delay_value(),
            final(self).sound_value() == old(self).sound_value(),
            forall|k: int| #[trigger] final(self).key_down_view(k) == old(self).key_down_view(k),
            final(self).pending_key() == old(self).pending_key(),
    ;

    fn get_delay_timer(&self) -> (r: u8)
        ensures
            r == self.delay_value(),
    ;

    fn get_sound_timer(&self) -> (r: u8)
        ensures
            r == self.sound_value(),
    ;

    fn set_delay_timer(&mut self, value: u8)
        requires
            old(self).inv(),
        ensures
            final(self).inv(),
            final(self).delay_value() == value,
            final(self).sound_value() == old(self).sound_value(),
            final(self).screen_view() == old(self).screen_view(),
            forall|k: int| #[trigger] final(self).key_down_view(k) == old(self).key_down_view(k),
            final(self).pending_key() == old(self).pending_key(),
    ;

    fn set_sound_timer(&mut self, value: u8)
        requires
            old(self).inv(),
        ensures
            final(self).inv(),
            final(self).sound_value() == value,
            final(self).delay_value() == old(self).delay_value(),
            final(self).screen_view() == old(self).screen_view(),
            forall|k: int| #[trigger] final(self).key_down_view(k) == old(self).key_down_view(k),
            final(self).pending_key() == old(self).pending_key(),
    ;

    fn is_key_down(&self, key: Nibble) -> (r: bool)
        ensures
            r == self.key_down_view(key.value() as int),
    ;

    /// Consumes and returns the pending key release, an edge-triggered
    /// "key was pressed then released" event, not a level read.
    fn get_last_pressed_key(&mut self) -> (r: Option<Nibble>)
        requires
            old(self).inv(),
        ensures
            final(self).inv(),
            r == old(self).pending_key(),
            final(self).pending_key() is None,
            final(self).screen_view() == old(self).screen_view(),
            final(self).delay_value() == old(self).delay_value(),
            final(self).sound_value() == old(self).sound_value(),
            forall|k: int| #[trigger] final(self).key_down_view(k) == old(self).key_down_view(k),
    ;
}

/// A source of random bytes for the `SetRegisterRandom` instruction.
/// Nothing is promised of its results; the interpreter's contract holds
/// for every byte it may hand back.
pub trait RandomGenerator: Sized {
    fn random_byte(&mut self) -> u8;
}

/// The concrete headless platform: an in-memory framebuffer, the two timer
/// registers, the hex keypad with its release tracking, and a pluggable
/// random generator.
pub struct BasePlatform<R: RandomGenerator> {
    pub(crate) rand: R,
    pub(crate) screen_frame: ScreenFrame,
    pub(crate) delay_timer: u8,
    pub(crate) sound_timer: u8,
    pub(crate) keyboard: Keyboard,
    pub(crate) last_pressed_key: Option<Nibble>,
}

impl<R: RandomGenerator> BasePlatform<R> {
    /// Whether the next release of key `key` is to be reported.
    pub closed spec fn key_trackable(&self, key: int) -> bool {
        0 <= key < 16 && self.keyboard.contents()[key].trackable()
    }

    /// A platform with a blank screen, zeroed timers, no key down and no
    /// pending release.
    pub fn new(rand: R) -> (r: Self)
        ensures
            r.inv(),
            r.screen_view() == blank_screen(),
            r.delay_value() == 0,
            r.sound_value() == 0,
            forall|k: int| !(#[trigger] r.key_down_view(k)),
            forall|k: int| !(#[trigger] r.key_trackable(k)),
            r.pending_key() is None,
    {
        Self {
            rand,
            screen_frame: ScreenFrame::new(),
            delay_timer: 0,
            sound_timer: 0,
            keyboard: Keyboard::new(),
            last_pressed_key: None,
        }
    }

    /// Records that key `key_index` went down or up. A press marks the key
    /// trackable and clears the pending release; a release of a trackable
    /// key becomes the new pending release and untracks the key; any other
    /// release changes nothing but the key's own level.
    pub fn change_keyboard_state(&mut self, key_index: Nibble, is_down: bool)
        requires
            old(self).inv(),
        ensures
            final(self).inv(),
            final(self).screen_view() == old(self).screen_view(),
            final(self).delay_value() == old(self).delay_value(),
            final(self).sound_value() == old(self).sound_value(),
            final(self).key_down_view(key_index.value() as int) == is_down,
            forall|k: int|
                k != key_index.value() as int ==> #[trigger] final(self).key_down_view(k)
                    == old(self).key_down_view(k),
            forall|k: int|
                k != key_index.value() as int ==> #[trigger] final(self).key_trackable(k)
                    == old(self).key_trackable(k),
            is_down ==> final(self).key_trackable(key_index.value() as int)
                && final(self).pending_key() is None,
            !is_down && old(self).key_trackable(key_index.value() as int)
                ==> !final(self).key_trackable(key_index.value() as int)
                && final(self).pending_key() == Some(key_index),
            !is_down && !old(self).key_trackable(key_index.value() as int)
                ==> final(self).key_trackable(key_index.value() as int)
                    == old(self).key_trackable(key_index.value() as int)
                && final(self).pending_key() == old(self).pending_key(),
    {
        proof {
            use_type_invariant(&key_index);
            use_type_invariant(&self.keyboard);
        }
        let mut key = self.keyboard.get_key(key_index);
        key.set_is_down(is_down);
        if is_down {
            key.set_is_trackable(true);
            self.keyboard.set_key(key_index, key);
            self.last_pressed_key = None;
        } else if key.is_trackable() {
            key.set_is_trackable(false);
            self.keyboard.set_key(key_index, key);
            self.last_pressed_key = Some(key_index);
        } else {
            self.keyboard.set_key(key_index, key);
        }
    }

    /// The framebuffer, exposed read-only to external renderers.
    pub fn get_screen_frame(&self) -> (r: &ScreenFrame)
        requires
            self.inv(),
        ensures
            r.wf(),
            r.pixels() == self.screen_view(),
    {
        &self.screen_frame
    }
}

impl<R: RandomGenerator> Platform for BasePlatform<R> {
    closed spec fn inv(&self) -> bool {
        self.screen_frame.wf()
    }

    closed spec fn screen_view(&self) -> Seq<Seq<bool>> {
        self.screen_frame.pixels()
    }

    closed spec fn delay_value(&self) -> u8 {
        self.delay_timer
    }

    closed spec fn sound_value(&self) -> u8 {
        self.sound_timer
    }

    closed spec fn key_down_view(&self, key: int) -> bool {
        0 <= key < 16 && self.keyboard.contents()[key].down()
    }

    closed spec fn pending_key(&self) -> Option<Nibble> {
        self.last_pressed_key
    }

    fn get_random_byte(&mut self) -> (r: u8) {
        self.rand.random_byte()
    }

    fn draw_sprite(&mut self, pos: Point, sprite: Sprite) -> (r: bool) {
        let ghost screen0 = self.screen_view();
        let ghost px = pos.x as int;
        let ghost py = pos.y as int;
        let ghost rows = sprite.rows();
        let mut collision = false;
        let mut j: usize = 0;
        while j < sprite.data.len()
            invariant
                self.screen_frame.wf(),
                pos.x < 64,
                pos.y < 32,
                px == pos.x as int,
                py == pos.y as int,
                rows == sprite.rows(),
                screen_wf(screen0),
                screen0 == old(self).screen_view(),
                j <= rows.len(),
                self.delay_timer == old(self).delay_timer,
                self.sound_timer == old(self).sound_timer,
                self.keyboard == old(self).keyboard,
                self.last_pressed_key == old(self).last_pressed_key,
                self.rand == old(self).rand,
                pixels_match(self.screen_frame.pixels(), screen0, rows, px, py, j as int, 0),
                collision == collision_so_far(screen0, rows, px, py, j as int, 0),
            decreases sprite.data.len() - j,
        {
            let row = sprite.data[j];
            let mut b: usize = 0;
            while b < 8
                invariant
                    self.screen_frame.wf(),
                    pos.x < 64,
                    pos.y < 32,
                    px == pos.x as int,
                    py == pos.y as int,
                    rows == sprite.rows(),
                    screen_wf(screen0),
                    screen0 == old(self).screen_view(),
                    j < rows.len(),
                    row == rows[j as int],
                    b <= 8,
                    self.delay_timer == old(self).delay_timer,
                    self.sound_timer == old(self).sound_timer,
                    self.keyboard == old(self).keyboard,
                    self.last_pressed_key == old(self).last_pressed_key,
                    self.rand == old(self).rand,
                    pixels_match(self.screen_frame.pixels(), screen0, rows, px, py, j as int, b as int),
                    collision == collision_so_far(screen0, rows, px, py, j as int, b as int),
                decreases 8 - b,
            {
                let ghost pix_before = self.screen_frame.pixels();
                let bit: u8 = 0x80u8 >> (b as u8);
                let tx: usize = pos.x as usize + b;
                let do_draw = row & bit != 0 && tx < 64 && j < 32 && pos.y as usize + j < 32;
                if do_draw {
                    let ty: usize = pos.y as usize + j;
                    let was_lit = self.screen_frame.toggle_pixel(tx, ty);
                    if was_lit {
                        collision = true;
                    }
                    proof {
                        let pix_after = self.screen_frame.pixels();
                        assert(sprite_row_bit(rows[j as int], b as int));
                        assert(!covered_prefix(rows, px, py, tx as int, ty as int, j as int, b as int));
                        assert(covered_prefix(rows, px, py, tx as int, ty as int, j as int, b + 1));
                        assert(pix_before[ty as int][tx as int] == screen0[ty as int][tx as int]);
                        assert forall|sy: int, sx: int| 0 <= sy < 32 && 0 <= sx < 64 implies
                            #[trigger] pix_after[sy][sx] == spec_drawn_cell(screen0, rows, px, py, sx, sy, j as int, b + 1) by {
                            if sy == ty as int && sx == tx as int {
                            } else {
                                assert(pix_after[sy][sx] == pix_before[sy][sx]);
                                assert(covered_prefix(rows, px, py, sx, sy, j as int, b + 1)
                                    == covered_prefix(rows, px, py, sx, sy, j as int, b as int));
                            }
                        }
                        if was_lit {
                            assert(covered_prefix(rows, px, py, tx as int, ty as int, j as int, b + 1)
                                && screen0[ty as int][tx as int]);
                            assert(collision_so_far(screen0, rows, px, py, j as int, b + 1));
                        } else {
                            assert(collision == collision_so_far(screen0, rows, px, py, j as int, b + 1)) by {
                                lemma_collision_step(screen0, rows, px, py, j as int, b as int, tx as int, ty as int);
                            }
                        }
                    }
                } else {
                    proof {
                        assert forall|sy: int, sx: int| 0 <= sy < 32 && 0 <= sx < 64 implies (
                            #[trigger] covered_prefix(rows, px, py, sx, sy, j as int, b + 1)
                            == covered_prefix(rows, px, py, sx, sy, j as int, b as int)) by {
                            if covered_prefix(rows, px, py, sx, sy, j as int, b + 1)
                                && !covered_prefix(rows, px, py, sx, sy, j as int, b as int) {
                                assert(sy - py == j as int && sx - px == b as int);
                                assert(sprite_row_bit(rows[j as int], b as int));
                                assert(sy < 32 && sx < 64);
                                assert(row & bit != 0 && tx < 64 && j < 32 && py + j < 32);
                                assert(false);
                            }
                        }
                        lemma_collision_equiv(screen0, rows, px, py, j as int, b + 1, j as int, b as int);
                    }
                }
                b = b + 1;
            }
            proof {
                assert forall|sy: int, sx: int| 0 <= sy < 32 && 0 <= sx < 64 implies (
                    #[trigger] covered_prefix(rows, px, py, sx, sy, j + 1, 0) == covered_prefix(
                    rows, px, py, sx, sy, j as int, 8)) by {}
                lemma_collision_equiv(screen0, rows, px, py, j + 1, 0, j as int, 8);
            }
            j = j + 1;
        }
        proof {
            assert forall|sy: int, sx: int| 0 <= sy < 32 && 0 <= sx < 64 implies (
                #[trigger] covered_prefix(rows, px, py, sx, sy, rows.len() as int, 0)
                == sprite_covers(rows, px, py, sx, sy)) by {}
            assert forall|sy: int| 0 <= sy < 32 implies #[trigger] self.screen_view()[sy]
                == draw_on_screen(screen0, px, py, rows)[sy] by {
                assert(self.screen_view()[sy] =~= draw_on_screen(screen0, px, py, rows)[sy]);
            }
            assert(self.screen_view() =~= draw_on_screen(screen0, px, py, rows));
            if collision {
                let (sy, sx) = choose|sy: int, sx: int|
                    0 <= sy < 32 && 0 <= sx < 64 && #[trigger] covered_prefix(
                        rows, px, py, sx, sy, rows.len() as int, 0) && screen0[sy][sx];
                assert(sprite_covers(rows, px, py, sx, sy) && screen0[sy][sx]);
                assert(draw_collides(screen0, px, py, rows));
            }
            if draw_collides(screen0, px, py, rows) {
                let (sy, sx) = choose|sy: int, sx: int|
                    0 <= sy < 32 && 0 <= sx < 64 && #[trigger] sprite_covers(rows, px, py, sx, sy)
                        && screen0[sy][sx];
                assert(covered_prefix(rows, px, py, sx, sy, rows.len() as int, 0)
                    && screen0[sy][sx]);
                assert(collision);
            }
        }
        collision
    }

    fn clear_screen(&mut self) {
        self.screen_frame.clear();
    }

    fn get_delay_timer(&self) -> (r: u8) {
        self.delay_timer
    }

    fn get_sound_timer(&self) -> (r: u8) {
        self.sound_timer
    }

    fn set_delay_timer(&mut self, value: u8) {
        self.delay_timer = value;
    }

    fn set_sound_timer(&mut self, value: u8) {
        self.sound_timer = value;
    }

    fn is_key_down(&self, key: Nibble) -> (r: bool) {
        proof {
            use_type_invariant(&key);
        }
        self.keyboard.get_key(key).is_down()
    }

    fn get_last_pressed_key(&mut self) -> (r: Option<Nibble>) {
        let r = self.last_pressed_key;
        self.last_pressed_key = None;
        r
    }
}

/// The state of one framebuffer cell after the drawing loop has processed
/// the sprite bits before row `j`, bit `b`.
pub(crate) open spec fn spec_drawn_cell(
    screen0: Seq<Seq<bool>>,
    rows: Seq<u8>,
    px: int,
    py: int,
    sx: int,
    sy: int,
    j: int,
    b: int,
) -> bool {
    if covered_prefix(rows, px, py, sx, sy, j, b) {
        !screen0[sy][sx]
    } else {
        screen0[sy][sx]
    }
}

/// Every in-range cell of `pixels` holds its partially drawn state.
pub(crate) open spec fn pixels_match(
    pixels: Seq<Seq<bool>>,
    screen0: Seq<Seq<bool>>,
    rows: Seq<u8>,
    px: int,
    py: int,
    j: int,
    b: int,
) -> bool {
    forall|sy: int, sx: int|
        0 <= sy < 32 && 0 <= sx < 64 ==> #[trigger] pixels[sy][sx] == spec_drawn_cell(
            screen0,
            rows,
            px,
            py,
            sx,
            sy,
            j,
            b,
        )
}

/// Whether some cell processed before row `j`, bit `b` was lit when the
/// draw began.
pub(crate) open spec fn collision_so_far(
    screen0: Seq<Seq<bool>>,
    rows: Seq<u8>,
    px: int,
    py: int,
    j: int,
    b: int,
) -> bool {
    exists|sy: int, sx: int|
        0 <= sy < 32 && 0 <= sx < 64 && #[trigger] covered_prefix(rows, px, py, sx, sy, j, b)
            && screen0[sy][sx]
}

/// Pointwise-equal coverage prefixes report the same collision so far.
proof fn lemma_collision_equiv(
    screen0: Seq<Seq<bool>>,
    rows: Seq<u8>,
    px: int,
    py: int,
    j1: int,
    b1: int,
    j2: int,
    b2: int,
)
    requires
        forall|sy: int, sx: int|
            0 <= sy < 32 && 0 <= sx < 64 ==> (#[trigger] covered_prefix(
                rows,
                px,
                py,
                sx,
                sy,
                j1,
                b1,
            ) == covered_prefix(rows, px, py, sx, sy, j2, b2)),
    ensures
        collision_so_far(screen0, rows, px, py, j1, b1) == collision_so_far(
            screen0,
            rows,
            px,
            py,
            j2,
            b2,
        ),
{
    if collision_so_far(screen0, rows, px, py, j1, b1) {
        let (sy, sx) = choose|sy: int, sx: int|
            0 <= sy < 32 && 0 <= sx < 64 && #[trigger] covered_prefix(rows, px, py, sx, sy, j1, b1)
                && screen0[sy][sx];
        assert(covered_prefix(rows, px, py, sx, sy, j2, b2) && screen0[sy][sx]);
    }
    if collision_so_far(screen0, rows, px, py, j2, b2) {
        let (sy, sx) = choose|sy: int, sx: int|
            0 <= sy < 32 && 0 <= sx < 64 && #[trigger] covered_prefix(rows, px, py, sx, sy, j2, b2)
                && screen0[sy][sx];
        assert(covered_prefix(rows, px, py, sx, sy, j1, b1) && screen0[sy][sx]);
    }
}

/// Extending the processed prefix by one unlit cell keeps the collision
/// report unchanged.
proof fn lemma_collision_step(
    screen0: Seq<Seq<bool>>,
    rows: Seq<u8>,
    px: int,
    py: int,
    j: int,
    b: int,
    tx: int,
    ty: int,
)
    requires
        tx == px + b,
        ty == py + j,
        0 <= ty < 32,
        0 <= tx < 64,
        !screen0[ty][tx],
        0 <= j < rows.len(),
        0 <= b < 8,
    ensures
        collision_so_far(screen0, rows, px, py, j, b + 1) == collision_so_far(
            screen0,
            rows,
            px,
            py,
            j,
            b,
        ),
{
    if collision_so_far(screen0, rows, px, py, j, b + 1) {
        let (sy, sx) = choose|sy: int, sx: int|
            0 <= sy < 32 && 0 <= sx < 64 && #[trigger] covered_prefix(rows, px, py, sx, sy, j, b + 1)
                && screen0[sy][sx];
        if sy == ty && sx == tx {
            assert(false);
        } else {
            assert(covered_prefix(rows, px, py, sx, sy, j, b) && screen0[sy][sx]);
        }
    }
    if collision_so_far(screen0, rows, px, py, j, b) {
        let (sy, sx) = choose|sy: int, sx: int|
            0 <= sy < 32 && 0 <= sx < 64 && #[trigger] covered_prefix(rows, px, py, sx, sy, j, b)
                && screen0[sy][sx];
        assert(covered_prefix(rows, px, py, sx, sy, j, b + 1) && screen0[sy][sx]);
    }
}

/// The part of a sprite already processed by the drawing loop: set bits in
/// rows before `j`, and in row `j` strictly left of bit `b`.
pub(crate) open spec fn covered_prefix(
    rows: Seq<u8>,
    px: int,
    py: int,
    sx: int,
    sy: int,
    j: int,
    b: int,
) -> bool {
    &&& py <= sy < py + rows.len()
    &&& px <= sx < px + 8
    &&& sprite_row_bit(rows[sy - py], sx - px)
    &&& (sy - py < j || (sy - py == j && sx - px < b))
}

} // verus!
