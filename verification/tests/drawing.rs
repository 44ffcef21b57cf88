use chip8_interpreter::BasePlatform;
use chip8_interpreter::Key;
use chip8_interpreter::Keyboard;
use chip8_interpreter::Nibble;
use chip8_interpreter::Platform;
use chip8_interpreter::Point;
use chip8_interpreter::RandomGenerator;
use chip8_interpreter::ScreenFrame;
use chip8_interpreter::Sprite;

struct FixedRand(u8);

impl RandomGenerator for FixedRand {
    fn random_byte(&mut self) -> u8 {
        self.0
    }
}

fn lit_cells(platform: &BasePlatform<FixedRand>) -> Vec<(usize, usize)> {
    let mut cells = Vec::new();
    let rows = platform.get_screen_frame().iter_rows();
    for (y, row) in rows.iter().enumerate() {
        for (x, lit) in row.iter().enumerate() {
            if *lit {
                cells.push((x, y));
            }
        }
    }
    cells
}

#[test]
fn draw_sprite_toggles_the_set_bits_at_the_position() {
    let mut platform = BasePlatform::new(FixedRand(0));
    let collided = platform.draw_sprite(Point { x: 3, y: 2 }, Sprite::new(vec![0b1100_0001]));
    assert!(!collided);
    assert_eq!(lit_cells(&platform), vec![(3, 2), (4, 2), (10, 2)]);
}

#[test]
fn draw_sprite_clips_at_the_frame_edge() {
    let mut platform = BasePlatform::new(FixedRand(0));
    let collided = platform.draw_sprite(Point { x: 62, y: 31 }, Sprite::new(vec![0xFF, 0xFF]));
    assert!(!collided);
    // Only the two cells inside the frame light; nothing wraps around.
    assert_eq!(lit_cells(&platform), vec![(62, 31), (63, 31)]);
}

#[test]
fn draw_collision_means_a_lit_cell_went_out() {
    let mut platform = BasePlatform::new(FixedRand(0));
    assert!(!platform.draw_sprite(Point { x: 0, y: 0 }, Sprite::new(vec![0b1000_0000])));
    // Toggling a disjoint bit pattern touches no lit cell: no collision.
    assert!(!platform.draw_sprite(Point { x: 0, y: 0 }, Sprite::new(vec![0b0100_0000])));
    // This one erases the first pixel: collision.
    assert!(platform.draw_sprite(Point { x: 0, y: 0 }, Sprite::new(vec![0b1000_0000])));
    assert_eq!(lit_cells(&platform), vec![(1, 0)]);
}

#[test]
fn drawing_the_same_sprite_twice_restores_the_frame_and_reports_collision() {
    let mut platform = BasePlatform::new(FixedRand(0));
    let rows = vec![0xF0u8, 0x90, 0x90, 0x90, 0xF0];
    let pos = Point { x: 20, y: 10 };
    let first = platform.draw_sprite(pos, Sprite::new(rows.clone()));
    assert!(!first);
    let second = platform.draw_sprite(pos, Sprite::new(rows));
    assert!(second);
    assert_eq!(lit_cells(&platform), Vec::<(usize, usize)>::new());
}

#[test]
fn clear_screen_turns_every_cell_off() {
    let mut platform = BasePlatform::new(FixedRand(0));
    platform.draw_sprite(Point { x: 5, y: 5 }, Sprite::new(vec![0xFF]));
    assert!(!lit_cells(&platform).is_empty());
    platform.clear_screen();
    assert!(lit_cells(&platform).is_empty());
}

#[test]
fn sprite_iter_pixels_lists_exactly_the_set_bits_in_row_major_order() {
    let sprite = Sprite::new(vec![0b1010_0000, 0b0000_0001]);
    let points = sprite.iter_pixels();
    assert_eq!(
        points,
        vec![Point { x: 0, y: 0 }, Point { x: 2, y: 0 }, Point { x: 7, y: 1 }]
    );
}

#[test]
fn screen_frame_pixel_toggling() {
    let mut frame = ScreenFrame::new();
    assert!(!frame.get_pixel(10, 20));
    assert!(!frame.toggle_pixel(10, 20));
    assert!(frame.get_pixel(10, 20));
    assert!(frame.toggle_pixel(10, 20));
    assert!(!frame.get_pixel(10, 20));
    frame.toggle_pixel(0, 0);
    frame.clear();
    assert!(!frame.get_pixel(0, 0));
    assert_eq!(frame.iter_rows().len(), 32);
}

#[test]
fn key_packs_level_and_tracking_independently() {
    let mut key = Key::new();
    assert!(!key.is_down());
    assert!(!key.is_trackable());
    key.set_is_down(true);
    assert!(key.is_down());
    assert!(!key.is_trackable());
    key.set_is_trackable(true);
    assert!(key.is_down());
    assert!(key.is_trackable());
    key.set_is_down(false);
    assert!(!key.is_down());
    assert!(key.is_trackable());
}

#[test]
fn keyboard_tracks_sixteen_keys() {
    let mut keyboard = Keyboard::new();
    assert_eq!(keyboard.iter().len(), 16);
    let five = Nibble::try_from(5).unwrap();
    let mut key = keyboard.get_key(five);
    key.set_is_down(true);
    keyboard.set_key(five, key);
    assert!(keyboard.get_key(five).is_down());
    assert!(!keyboard.get_key(Nibble::try_from(6).unwrap()).is_down());
}

#[test]
fn keyboard_release_of_a_tracked_key_becomes_the_pending_event() {
    let mut platform = BasePlatform::new(FixedRand(0));
    let seven = Nibble::try_from(7).unwrap();
    assert_eq!(platform.get_last_pressed_key(), None);
    platform.change_keyboard_state(seven, true);
    assert!(platform.is_key_down(seven));
    // A press alone is no event.
    assert_eq!(platform.get_last_pressed_key(), None);
    // But consuming cleared the tracking? No: tracking survives the poll.
    platform.change_keyboard_state(seven, false);
    assert!(!platform.is_key_down(seven));
    assert_eq!(platform.get_last_pressed_key(), Some(seven));
    // The event is edge-triggered and consumed by the read.
    assert_eq!(platform.get_last_pressed_key(), None);
    // A second release without a new press reports nothing.
    platform.change_keyboard_state(seven, false);
    assert_eq!(platform.get_last_pressed_key(), None);
}

#[test]
fn random_byte_comes_from_the_generator() {
    let mut platform = BasePlatform::new(FixedRand(0xAB));
    assert_eq!(platform.get_random_byte(), 0xAB);
    platform.set_delay_timer(60);
    platform.set_sound_timer(30);
    assert_eq!(platform.get_delay_timer(), 60);
    assert_eq!(platform.get_sound_timer(), 30);
}
