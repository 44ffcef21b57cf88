use chip8_interpreter::Address;
use chip8_interpreter::InterpreterError;
use chip8_interpreter::Nibble;
use chip8_interpreter::OpCode;

#[test]
fn nibble_new_wraps_modulo_sixteen() {
    assert_eq!(Nibble::new::<5>().as_u8(), 5);
    assert_eq!(Nibble::new::<15>().as_u8(), 15);
    assert_eq!(Nibble::new::<16>().as_u8(), 0);
    assert_eq!(Nibble::new::<255>().as_u8(), 15);
}

#[test]
fn nibble_try_from_accepts_up_to_fifteen() {
    assert_eq!(Nibble::try_from(0).unwrap().as_u8(), 0);
    assert_eq!(Nibble::try_from(15).unwrap().as_u8(), 15);
    assert_eq!(Nibble::try_from(16), Err(InterpreterError::NibbleOverflow));
    assert_eq!(Nibble::try_from(255), Err(InterpreterError::NibbleOverflow));
}

#[test]
fn nibble_conversions_agree() {
    let n = Nibble::new::<9>();
    assert_eq!(n.as_u8(), 9);
    assert_eq!(n.as_usize(), 9);
    assert_eq!(n.as_i16(), 9);
}

#[test]
fn address_new_wraps_modulo_4096() {
    assert_eq!(Address::new::<0>().as_u16(), 0);
    assert_eq!(Address::new::<4095>().as_u16(), 4095);
    assert_eq!(Address::new::<4096>().as_u16(), 0);
    assert_eq!(Address::new::<4097>().as_u16(), 1);
}

#[test]
fn address_try_from_accepts_up_to_4095() {
    assert_eq!(Address::try_from(512).unwrap().as_u16(), 512);
    assert_eq!(Address::try_from(4095).unwrap().as_usize(), 4095);
    assert_eq!(Address::try_from(4096), Err(InterpreterError::AddressOverflow));
}

#[test]
fn address_offset_addition_wraps_and_never_fails() {
    // The address space is a ring: a + k == (a + k) mod 4096.
    assert_eq!(Address::new::<100>().add_offset(28).as_u16(), 128);
    assert_eq!(Address::new::<4095>().add_offset(1).as_u16(), 0);
    assert_eq!(Address::new::<0>().add_offset(-1).as_u16(), 4095);
    assert_eq!(Address::new::<100>().add_offset(-300).as_u16(), 3896);
    assert_eq!(Address::new::<2048>().add_offset(i16::MAX).as_u16(), (2048 + 32767) % 4096);
    assert_eq!(Address::new::<0>().add_offset(i16::MIN).as_u16(), {
        let wrapped = (-(i16::MIN as i32)) % 4096;
        ((4096 - wrapped) % 4096) as u16
    });
}

#[test]
fn opcode_field_extraction() {
    let code = OpCode::from_bytes(0xAB, 0xCD);
    assert_eq!(code.get_nibble(3).as_u8(), 0xA);
    assert_eq!(code.get_nibble(2).as_u8(), 0xB);
    assert_eq!(code.get_nibble(1).as_u8(), 0xC);
    assert_eq!(code.get_nibble(0).as_u8(), 0xD);
    assert_eq!(code.get_word(0), 0xCD);
    assert_eq!(code.get_word(1), 0xAB);
    assert_eq!(code.get_address().as_u16(), 0xBCD);
}
