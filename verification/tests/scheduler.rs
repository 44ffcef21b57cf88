use chip8_interpreter::BasePlatform;
use chip8_interpreter::Chip8BaseExecutable;
use chip8_interpreter::ControlledInterpreter;
use chip8_interpreter::Platform;
use chip8_interpreter::RandomGenerator;
use chip8_interpreter::Timer;
use chip8_interpreter::DEFAULT_DELAY_TIMER_DURATION;
use chip8_interpreter::DEFAULT_INSTRUCTION_DURATION;
use chip8_interpreter::DEFAULT_SOUND_TIMER_DURATION;

struct FixedRand(u8);

impl RandomGenerator for FixedRand {
    fn random_byte(&mut self) -> u8 {
        self.0
    }
}

type Sched = ControlledInterpreter<BasePlatform<FixedRand>>;

fn scheduler(image: Vec<u8>) -> Sched {
    ControlledInterpreter::new(
        BasePlatform::new(FixedRand(0)),
        Chip8BaseExecutable::new(image),
        DEFAULT_INSTRUCTION_DURATION,
        DEFAULT_DELAY_TIMER_DURATION,
        DEFAULT_SOUND_TIMER_DURATION,
    )
}

fn screen_text(sched: &mut Sched) -> Vec<String> {
    sched
        .get_platform_mut()
        .get_screen_frame()
        .iter_rows()
        .iter()
        .map(|row| row.iter().map(|lit| if *lit { '#' } else { '.' }).collect())
        .collect()
}

/// A program that clears the screen, arms the delay timer with 60 and
/// draws a small glyph at (5, 3), then spins.
fn timed_program() -> Vec<u8> {
    vec![
        0x00, 0xE0, // clear screen
        0x60, 0x3C, // V0 = 60
        0xF0, 0x15, // delay timer = V0
        0x60, 0x05, // V0 = 5
        0x61, 0x03, // V1 = 3
        0xA2, 0x12, // I = 0x212
        0xD0, 0x13, // draw 3 rows at (V0, V1)
        0x12, 0x0E, // spin
        0x00, 0x00, // padding
        0xE0, 0xA0, 0xE0, // sprite rows
    ]
}

#[test]
fn timer_accumulates_and_keeps_the_remainder() {
    let mut t = Timer::new(10);
    assert_eq!(t.time_until_tick(), 10);
    assert!(!t.add_time(4));
    assert_eq!(t.time_until_tick(), 6);
    // 4 + 7 = 11 crosses the interval: tick, and 1 carries over.
    assert!(t.add_time(7));
    assert_eq!(t.time_until_tick(), 9);
    assert!(!t.add_time(8));
    assert_eq!(t.time_until_tick(), 1);
    assert!(t.add_time(1));
    assert_eq!(t.time_until_tick(), 10);
}

#[test]
fn timer_addition_saturates_at_the_largest_time() {
    let mut t = Timer::new(10);
    assert!(!t.add_time(3));
    assert!(t.add_time(u64::MAX));
    assert_eq!(t.time_until_tick(), 0);
}

#[test]
fn advance_decrements_the_delay_timer_once_per_interval() {
    let mut sched = scheduler(timed_program());
    // 100 ms: the delay timer is armed at 4 ms and ticks at each full
    // 16 ms boundary: 16, 32, 48, 64, 80, 96 — six decrements.
    sched.simulate_duration(100_000_000).unwrap();
    assert_eq!(sched.get_platform_mut().get_delay_timer(), 54);
    assert_eq!(sched.get_platform_mut().get_sound_timer(), 0);
}

#[test]
fn advance_in_one_call_equals_advance_in_chunks() {
    let mut once = scheduler(timed_program());
    once.simulate_duration(100_000_000).unwrap();

    let mut chunked = scheduler(timed_program());
    for chunk in [7_000_000u64, 13_000_000, 20_000_000, 25_000_000, 15_000_000, 20_000_000] {
        chunked.simulate_duration(chunk).unwrap();
    }

    assert_eq!(
        once.get_platform_mut().get_delay_timer(),
        chunked.get_platform_mut().get_delay_timer()
    );
    assert_eq!(screen_text(&mut once), screen_text(&mut chunked));
}

#[test]
fn advance_equals_repeated_single_instruction_ticks() {
    let mut once = scheduler(timed_program());
    once.simulate_duration(100_000_000).unwrap();

    let mut stepped = scheduler(timed_program());
    // Each single-instruction tick covers one 2 ms instruction interval.
    for _ in 0..50 {
        stepped.simulate_one_instruction().unwrap();
    }

    assert_eq!(
        once.get_platform_mut().get_delay_timer(),
        stepped.get_platform_mut().get_delay_timer()
    );
    assert_eq!(screen_text(&mut once), screen_text(&mut stepped));
}

#[test]
fn advance_runs_one_cycle_per_instruction_interval() {
    // V0 += 1, jump back: one increment per two instruction cycles. A
    // 100 ms advance at 2 ms per instruction runs exactly 50 cycles.
    let mut sched = scheduler(vec![0x70, 0x01, 0x12, 0x00]);
    sched.simulate_duration(100_000_000).unwrap();
    assert_eq!(sched.read_register(chip8_interpreter::Nibble::try_from(0).unwrap()), 25);
    // A further 3 ms holds one more cycle (at 102 ms), not two.
    sched.simulate_duration(3_000_000).unwrap();
    assert_eq!(sched.read_register(chip8_interpreter::Nibble::try_from(0).unwrap()), 26);
}

#[test]
fn faults_from_the_interpreter_abort_the_advance() {
    // An opcode outside the decoding map crashes on the first cycle.
    let mut sched = scheduler(vec![0x5A, 0xB1]);
    assert!(sched.simulate_duration(10_000_000).is_err());
    // The scheduler forwards the crash on every further advance that
    // reaches an instruction tick.
    assert!(sched.simulate_duration(10_000_000).is_err());
}

#[test]
fn logo_program_renders_the_expected_frame() {
    // Draws the "0" glyph at (0, 0) and again at (10, 8), then spins.
    let image = vec![
        0x00, 0xE0, // clear screen
        0x60, 0x00, // V0 = 0
        0x61, 0x00, // V1 = 0
        0xA2, 0x12, // I = 0x212
        0xD0, 0x15, // draw 5 rows at (0, 0)
        0x60, 0x0A, // V0 = 10
        0x61, 0x08, // V1 = 8
        0xD0, 0x15, // draw 5 rows at (10, 8)
        0x12, 0x10, // spin
        0xF0, 0x90, 0x90, 0x90, 0xF0, // the "0" glyph
    ];
    let mut sched = scheduler(image);
    for _ in 0..20 {
        sched.simulate_one_instruction().unwrap();
    }
    let text = screen_text(&mut sched);
    let blank = ".".repeat(64);
    let expected = [
        (0usize, format!("{}{}", "####", ".".repeat(60))),
        (1, format!("{}{}", "#..#", ".".repeat(60))),
        (2, format!("{}{}", "#..#", ".".repeat(60))),
        (3, format!("{}{}", "#..#", ".".repeat(60))),
        (4, format!("{}{}", "####", ".".repeat(60))),
        (8, format!("{}{}{}", ".".repeat(10), "####", ".".repeat(50))),
        (9, format!("{}{}{}", ".".repeat(10), "#..#", ".".repeat(50))),
        (10, format!("{}{}{}", ".".repeat(10), "#..#", ".".repeat(50))),
        (11, format!("{}{}{}", ".".repeat(10), "#..#", ".".repeat(50))),
        (12, format!("{}{}{}", ".".repeat(10), "####", ".".repeat(50))),
    ];
    for y in 0..32 {
        let want = expected
            .iter()
            .find(|(row, _)| *row == y)
            .map(|(_, s)| s.clone())
            .unwrap_or_else(|| blank.clone());
        assert_eq!(text[y], want, "row {}", y);
    }
}

#[test]
fn keypad_events_drive_a_waiting_program_under_the_scheduler() {
    // Wait for a key into V5, then draw one row at (V5, 0), then spin.
    let image = vec![
        0xF5, 0x0A, // wait for key -> V5
        0xA2, 0x08, // I = 0x208
        0xD5, 0x01, // draw 1 row at (V5, V0 = 0)
        0x12, 0x06, // spin
        0x80, // sprite row: one pixel
    ];
    let mut sched = scheduler(image);
    // A second of virtual time with no key: nothing is drawn.
    sched.simulate_duration(1_000_000_000).unwrap();
    assert!(screen_text(&mut sched).iter().all(|row| !row.contains('#')));
    // Press and release key 3, then let time pass: the draw lands at x=3.
    let three = chip8_interpreter::Nibble::try_from(3).unwrap();
    sched.get_platform_mut().change_keyboard_state(three, true);
    sched.simulate_duration(50_000_000).unwrap();
    assert!(screen_text(&mut sched).iter().all(|row| !row.contains('#')));
    sched.get_platform_mut().change_keyboard_state(three, false);
    sched.simulate_duration(50_000_000).unwrap();
    let text = screen_text(&mut sched);
    assert_eq!(text[0], format!("{}{}{}", "...", "#", ".".repeat(60)));
}
