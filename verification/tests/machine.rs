use chip8_interpreter::Address;
use chip8_interpreter::BasePlatform;
use chip8_interpreter::Chip8BaseExecutable;
use chip8_interpreter::Interpreter;
use chip8_interpreter::InterpreterError;
use chip8_interpreter::Nibble;
use chip8_interpreter::OpCode;
use chip8_interpreter::Platform;
use chip8_interpreter::RandomGenerator;

struct FixedRand(u8);

impl RandomGenerator for FixedRand {
    fn random_byte(&mut self) -> u8 {
        self.0
    }
}

fn machine(image: Vec<u8>) -> Interpreter<BasePlatform<FixedRand>> {
    machine_with_rand(image, 0)
}

fn machine_with_rand(image: Vec<u8>, rand: u8) -> Interpreter<BasePlatform<FixedRand>> {
    Interpreter::new(BasePlatform::new(FixedRand(rand)), Chip8BaseExecutable::new(image))
}

fn run(interpreter: &mut Interpreter<BasePlatform<FixedRand>>, cycles: usize) {
    for _ in 0..cycles {
        interpreter.run_next().unwrap();
    }
}

fn reg(interpreter: &Interpreter<BasePlatform<FixedRand>>, index: u8) -> u8 {
    interpreter.read_register(Nibble::try_from(index).unwrap())
}

#[test]
fn fresh_interpreter_starts_at_the_entry_point_with_zeroed_registers() {
    let interpreter = machine(vec![0x00, 0xE0]);
    assert_eq!(interpreter.get_instruction_address().as_u16(), 0x200);
    for i in 0..16 {
        assert_eq!(reg(&interpreter, i), 0);
    }
}

#[test]
fn add_register_wraps_without_touching_the_flag() {
    // V1 = 250, V1 += 10 (wraps to 4), VF untouched.
    let mut m = machine(vec![0x61, 0xFA, 0x71, 0x0A]);
    run(&mut m, 2);
    assert_eq!(reg(&m, 1), 4);
    assert_eq!(reg(&m, 0xF), 0);
    assert_eq!(m.get_instruction_address().as_u16(), 0x204);
}

#[test]
fn add_registers_sets_carry_and_wrapped_sum() {
    // V0 = 200, V1 = 200, V0 += V1: sum 400 > 255 so VF = 1, V0 = 144.
    let mut m = machine(vec![0x60, 0xC8, 0x61, 0xC8, 0x80, 0x14]);
    run(&mut m, 3);
    assert_eq!(reg(&m, 0), 144);
    assert_eq!(reg(&m, 0xF), 1);
}

#[test]
fn add_registers_clears_carry_when_the_sum_fits() {
    let mut m = machine(vec![0x60, 0x05, 0x61, 0x07, 0x80, 0x14]);
    run(&mut m, 3);
    assert_eq!(reg(&m, 0), 12);
    assert_eq!(reg(&m, 0xF), 0);
}

#[test]
fn sub_registers_reports_borrow_with_the_inverted_convention() {
    // V2 = 5, V3 = 10, V2 -= V3: borrow occurred, so VF = 0, V2 wraps.
    let mut m = machine(vec![0x62, 0x05, 0x63, 0x0A, 0x82, 0x35]);
    run(&mut m, 3);
    assert_eq!(reg(&m, 2), 251);
    assert_eq!(reg(&m, 0xF), 0);
}

#[test]
fn sub_registers_sets_the_flag_when_no_borrow_occurs() {
    let mut m = machine(vec![0x62, 0x0A, 0x63, 0x05, 0x82, 0x35]);
    run(&mut m, 3);
    assert_eq!(reg(&m, 2), 5);
    assert_eq!(reg(&m, 0xF), 1);
}

#[test]
fn sub_reversed_swaps_the_operands() {
    // V2 = 5, V3 = 10, V2 = V3 - V2 = 5, no borrow: VF = 1.
    let mut m = machine(vec![0x62, 0x05, 0x63, 0x0A, 0x82, 0x37]);
    run(&mut m, 3);
    assert_eq!(reg(&m, 2), 5);
    assert_eq!(reg(&m, 0xF), 1);
}

#[test]
fn bitwise_ops_unconditionally_reset_the_flag() {
    // VF = 10 beforehand; V0 | V1 computes 7 and VF drops to 0.
    let mut m = machine(vec![0x6F, 0x0A, 0x60, 0x05, 0x61, 0x03, 0x80, 0x11]);
    run(&mut m, 4);
    assert_eq!(reg(&m, 0), 7);
    assert_eq!(reg(&m, 0xF), 0);

    let mut m2 = machine(vec![0x6F, 0x0A, 0x60, 0x0D, 0x61, 0x0B, 0x80, 0x12]);
    run(&mut m2, 4);
    assert_eq!(reg(&m2, 0), 9);
    assert_eq!(reg(&m2, 0xF), 0);

    let mut m3 = machine(vec![0x6F, 0x0A, 0x60, 0x0D, 0x61, 0x0B, 0x80, 0x13]);
    run(&mut m3, 4);
    assert_eq!(reg(&m3, 0), 6);
    assert_eq!(reg(&m3, 0xF), 0);
}

#[test]
fn right_shift_reads_the_source_register_and_reports_the_dropped_bit() {
    // V2 = 7; V1 = V2 >> 1 = 3, VF = 1.
    let mut m = machine(vec![0x62, 0x07, 0x81, 0x26]);
    run(&mut m, 2);
    assert_eq!(reg(&m, 1), 3);
    assert_eq!(reg(&m, 2), 7);
    assert_eq!(reg(&m, 0xF), 1);
}

#[test]
fn left_shift_reads_the_source_register_and_reports_the_high_bit() {
    // V3 = 0x81; V4 = V3 << 1 = 0x02, VF = 1.
    let mut m = machine(vec![0x63, 0x81, 0x84, 0x3E]);
    run(&mut m, 2);
    assert_eq!(reg(&m, 4), 0x02);
    assert_eq!(reg(&m, 0xF), 1);
}

#[test]
fn copy_register_and_skip_if_equal() {
    // V3 = 5; skip-if-V3==5 jumps over the V4 = 1 write; V4 = 2 runs.
    let mut m = machine(vec![0x63, 0x05, 0x33, 0x05, 0x64, 0x01, 0x64, 0x02]);
    run(&mut m, 3);
    assert_eq!(reg(&m, 4), 2);
    assert_eq!(m.get_instruction_address().as_u16(), 0x208);

    // The not-taken case steps normally.
    let mut m2 = machine(vec![0x63, 0x05, 0x33, 0x06, 0x64, 0x01, 0x64, 0x02]);
    run(&mut m2, 3);
    assert_eq!(reg(&m2, 4), 1);

    let mut m3 = machine(vec![0x63, 0x05, 0x84, 0x30]);
    run(&mut m3, 2);
    assert_eq!(reg(&m3, 4), 5);
}

#[test]
fn skip_if_registers_equal_and_not_equal() {
    let mut m = machine(vec![0x60, 0x09, 0x61, 0x09, 0x50, 0x10, 0x64, 0x01, 0x64, 0x02]);
    run(&mut m, 4);
    assert_eq!(reg(&m, 4), 2);

    let mut m2 = machine(vec![0x60, 0x09, 0x61, 0x08, 0x90, 0x10, 0x64, 0x01, 0x64, 0x02]);
    run(&mut m2, 4);
    assert_eq!(reg(&m2, 4), 2);
}

#[test]
fn jump_and_jump_with_offset() {
    // V0 = 4, then jump to 0x200 + V0 = 0x204, where V7 = 1 runs.
    let mut m = machine(vec![0x60, 0x04, 0xB2, 0x00, 0x67, 0x01]);
    run(&mut m, 3);
    assert_eq!(reg(&m, 7), 1);
    assert_eq!(m.get_instruction_address().as_u16(), 0x206);

    let mut m2 = machine(vec![0x12, 0x06, 0x68, 0x01, 0x00, 0x00, 0x68, 0x02]);
    run(&mut m2, 2);
    assert_eq!(reg(&m2, 8), 2);
}

#[test]
fn call_pushes_the_return_address_and_return_resumes_there() {
    // Call 0x206; the subroutine sets V8 and returns to 0x202 where V9 = 2.
    let mut m = machine(vec![0x22, 0x06, 0x69, 0x02, 0x00, 0x00, 0x68, 0x01, 0x00, 0xEE]);
    run(&mut m, 1);
    assert_eq!(m.get_instruction_address().as_u16(), 0x206);
    run(&mut m, 3);
    assert_eq!(reg(&m, 8), 1);
    assert_eq!(reg(&m, 9), 2);
    assert_eq!(m.get_instruction_address().as_u16(), 0x204);
}

#[test]
fn set_register_random_applies_the_mask() {
    let mut m = machine_with_rand(vec![0xC0, 0xF0], 0xAB);
    run(&mut m, 1);
    assert_eq!(reg(&m, 0), 0xA0);
}

#[test]
fn bcd_writes_three_decimal_digits_without_moving_the_index() {
    // V0 = 254; BCD at I = 0x300; reload V0..V2 from the same spot.
    let mut m = machine(vec![0x60, 0xFE, 0xA3, 0x00, 0xF0, 0x33, 0xF2, 0x65]);
    run(&mut m, 4);
    assert_eq!(reg(&m, 0), 2);
    assert_eq!(reg(&m, 1), 5);
    assert_eq!(reg(&m, 2), 4);
}

#[test]
fn block_store_and_load_round_trip_through_memory() {
    // Store V0..V1 at 0x300, clear them, reload from 0x300.
    let mut m = machine(vec![
        0x60, 0x05, 0x61, 0x07, 0xA3, 0x00, 0xF1, 0x55, 0x60, 0x00, 0x61, 0x00, 0xA3, 0x00, 0xF1,
        0x65,
    ]);
    run(&mut m, 8);
    assert_eq!(reg(&m, 0), 5);
    assert_eq!(reg(&m, 1), 7);
}

#[test]
fn block_store_advances_the_index_register_past_the_block() {
    // Store V0 at 0x300 (I becomes 0x301), store V1 there too, then read
    // both back in one load from 0x300.
    let mut m = machine(vec![
        0x60, 0x11, 0x61, 0x22, 0xA3, 0x00, 0xF0, 0x55, 0x81, 0x10, 0x80, 0x10, 0xF0, 0x55, 0xA3,
        0x00, 0xF1, 0x65,
    ]);
    // V0=0x11, V1=0x22, I=0x300, store V0 (I->0x301), V1=V1, V0=V1? Use a
    // simpler check: after the first store I is 0x301, so storing V1 via
    // V0 would need a copy; instead re-point and load two cells: the cell
    // at 0x301 was never written and stays 0.
    run(&mut m, 4);
    let mut m2 = m;
    m2.run_next().unwrap(); // 8110: V1 = V1 (no-op copy)
    m2.run_next().unwrap(); // 8010: V0 = V1 = 0x22
    m2.run_next().unwrap(); // F055: stores V0 = 0x22 at I = 0x301
    m2.run_next().unwrap(); // A300
    m2.run_next().unwrap(); // F165: V0 = mem[0x300] = 0x11, V1 = mem[0x301] = 0x22
    assert_eq!(reg(&m2, 0), 0x11);
    assert_eq!(reg(&m2, 1), 0x22);
}

#[test]
fn get_and_set_delay_timer_through_instructions() {
    // V0 = 60 -> delay timer; read it back into V2.
    let mut m = machine(vec![0x60, 0x3C, 0xF0, 0x15, 0xF2, 0x07]);
    run(&mut m, 3);
    assert_eq!(reg(&m, 2), 60);
    assert_eq!(m.get_platform_mut().get_delay_timer(), 60);

    let mut m2 = machine(vec![0x60, 0x1E, 0xF0, 0x18]);
    run(&mut m2, 2);
    assert_eq!(m2.get_platform_mut().get_sound_timer(), 30);
}

#[test]
fn skip_if_key_down_and_up_consult_the_keyboard() {
    let image = vec![0x60, 0x04, 0xE0, 0x9E, 0x64, 0x01, 0x64, 0x02];
    let mut held = machine(image.clone());
    held.get_platform_mut().change_keyboard_state(Nibble::try_from(4).unwrap(), true);
    run(&mut held, 3);
    assert_eq!(reg(&held, 4), 2);

    let mut released = machine(image);
    run(&mut released, 3);
    assert_eq!(reg(&released, 4), 1);

    let mut up = machine(vec![0x60, 0x04, 0xE0, 0xA1, 0x64, 0x01, 0x64, 0x02]);
    run(&mut up, 3);
    assert_eq!(reg(&up, 4), 2);
}

#[test]
fn unknown_opcode_crashes_and_the_crash_latches() {
    let mut m = machine(vec![0x5A, 0xB1]);
    assert_eq!(
        m.run_next(),
        Err(InterpreterError::UnknownOpCode(OpCode::from_bytes(0x5A, 0xB1)))
    );
    // The instruction pointer stays where the fault happened.
    assert_eq!(m.get_instruction_address().as_u16(), 0x200);
    // Once crashed, every further cycle fails without reading memory.
    assert_eq!(m.run_next(), Err(InterpreterError::Crashed));
    assert_eq!(m.run_next(), Err(InterpreterError::Crashed));
}

#[test]
fn return_on_an_empty_stack_underflows() {
    let mut m = machine(vec![0x00, 0xEE]);
    assert_eq!(m.run_next(), Err(InterpreterError::StackUnderflow));
    assert_eq!(m.run_next(), Err(InterpreterError::Crashed));
}

#[test]
fn sixteen_nested_calls_overflow_the_stack() {
    // The call targets itself: each cycle pushes another return address.
    let mut m = machine(vec![0x22, 0x00]);
    for _ in 0..15 {
        assert_eq!(m.run_next(), Ok(()));
    }
    assert_eq!(m.run_next(), Err(InterpreterError::StackOverflow));
}

#[test]
fn key_register_above_fifteen_faults_the_skip() {
    let mut m = machine(vec![0x60, 0xFF, 0xE0, 0x9E]);
    assert_eq!(m.run_next(), Ok(()));
    assert_eq!(m.run_next(), Err(InterpreterError::NibbleOverflow));
}

#[test]
fn wait_for_key_suspends_until_a_press_is_released() {
    // F50A: wait for a key into V5; then V6 = 1; then spin.
    let mut m = machine(vec![0xF5, 0x0A, 0x66, 0x01, 0x12, 0x04]);
    assert_eq!(m.run_next(), Ok(()));
    // The wait instruction itself stepped the pointer once.
    assert_eq!(m.get_instruction_address().as_u16(), 0x202);
    // Cycles with no key leave the pointer (and everything else) alone.
    for _ in 0..3 {
        assert_eq!(m.run_next(), Ok(()));
        assert_eq!(m.get_instruction_address().as_u16(), 0x202);
        assert_eq!(reg(&m, 5), 0);
        assert_eq!(reg(&m, 6), 0);
    }
    // A key going down is not yet the event; the release is.
    let seven = Nibble::try_from(7).unwrap();
    m.get_platform_mut().change_keyboard_state(seven, true);
    assert_eq!(m.run_next(), Ok(()));
    assert_eq!(m.get_instruction_address().as_u16(), 0x202);
    assert_eq!(reg(&m, 5), 0);
    m.get_platform_mut().change_keyboard_state(seven, false);
    // Exactly one cycle later the key lands in V5 and execution resumes.
    assert_eq!(m.run_next(), Ok(()));
    assert_eq!(reg(&m, 5), 7);
    assert_eq!(reg(&m, 6), 1);
    assert_eq!(m.get_instruction_address().as_u16(), 0x204);
}

#[test]
fn clear_screen_and_draw_through_instructions() {
    // Draw one row at (V0, V1) = (60, 0): 0xFF clips to four cells.
    let mut m = machine(vec![0x00, 0xE0, 0x60, 0x3C, 0x61, 0x00, 0xA2, 0x0A, 0xD0, 0x11, 0xFF]);
    run(&mut m, 5);
    let rows = m.get_platform_mut().get_screen_frame().iter_rows();
    let lit: Vec<usize> = (0..64).filter(|x| rows[0][*x]).collect();
    assert_eq!(lit, vec![60, 61, 62, 63]);
    assert_eq!(reg(&m, 0xF), 0);
}

#[test]
fn draw_position_wraps_modulo_the_screen_size() {
    // (V0, V1) = (64, 33) wraps to (0, 1) before drawing.
    let mut m = machine(vec![0x60, 0x40, 0x61, 0x21, 0xA2, 0x08, 0xD0, 0x11, 0x80]);
    run(&mut m, 4);
    let rows = m.get_platform_mut().get_screen_frame().iter_rows();
    assert!(rows[1][0]);
}

#[test]
fn manual_timer_ticks_saturate_at_zero() {
    let mut m = machine(vec![0x60, 0x02, 0xF0, 0x15]);
    run(&mut m, 2);
    m.tick_delay_timer();
    assert_eq!(m.get_platform_mut().get_delay_timer(), 1);
    m.tick_delay_timer();
    m.tick_delay_timer();
    assert_eq!(m.get_platform_mut().get_delay_timer(), 0);
    m.tick_sound_timer();
    assert_eq!(m.get_platform_mut().get_sound_timer(), 0);
}
