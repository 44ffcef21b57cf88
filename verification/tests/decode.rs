use chip8_interpreter::Address;
use chip8_interpreter::Instruction;
use chip8_interpreter::InterpreterError;
use chip8_interpreter::Nibble;
use chip8_interpreter::OpCode;

fn decode(hi: u8, lo: u8) -> Result<Instruction, InterpreterError> {
    Instruction::try_from(OpCode::from_bytes(hi, lo))
}

fn nib(v: u8) -> Nibble {
    Nibble::try_from(v).unwrap()
}

#[test]
fn decode_system_and_control() {
    assert_eq!(decode(0x00, 0xE0).unwrap(), Instruction::ClearScreen);
    assert_eq!(decode(0x00, 0xEE).unwrap(), Instruction::Return);
    assert_eq!(decode(0x12, 0x34).unwrap(), Instruction::Jump(Address::try_from(0x234).unwrap()));
    assert_eq!(decode(0x23, 0x45).unwrap(), Instruction::Call(Address::try_from(0x345).unwrap()));
    assert_eq!(
        decode(0xB1, 0x23).unwrap(),
        Instruction::JumpV0(Address::try_from(0x123).unwrap())
    );
}

#[test]
fn decode_skips() {
    assert_eq!(decode(0x3A, 0x7F).unwrap(), Instruction::SkipIfEqual(nib(0xA), 0x7F));
    assert_eq!(decode(0x4A, 0x7F).unwrap(), Instruction::SkipIfNotEqual(nib(0xA), 0x7F));
    assert_eq!(decode(0x5A, 0xB0).unwrap(), Instruction::SkipIfRegistersEqual(nib(0xA), nib(0xB)));
    assert_eq!(
        decode(0x9A, 0xB0).unwrap(),
        Instruction::SkipIfRegistersNotEqual(nib(0xA), nib(0xB))
    );
    assert_eq!(decode(0xE3, 0x9E).unwrap(), Instruction::SkipIfKeyDown(nib(3)));
    assert_eq!(decode(0xE3, 0xA1).unwrap(), Instruction::SkipIfKeyUp(nib(3)));
}

#[test]
fn decode_register_writes() {
    assert_eq!(decode(0x61, 0x42).unwrap(), Instruction::SetRegister(nib(1), 0x42));
    assert_eq!(decode(0x81, 0x20).unwrap(), Instruction::CopyRegister(nib(1), nib(2)));
    assert_eq!(
        decode(0xA9, 0x87).unwrap(),
        Instruction::SetAddressRegister(Address::try_from(0x987).unwrap())
    );
    assert_eq!(decode(0xC4, 0x0F).unwrap(), Instruction::SetRegisterRandom(nib(4), 0x0F));
    assert_eq!(decode(0xF5, 0x07).unwrap(), Instruction::GetDelayTimer(nib(5)));
    assert_eq!(decode(0xF5, 0x55).unwrap(), Instruction::WriteRegistersToMem(nib(5)));
    assert_eq!(decode(0xF5, 0x65).unwrap(), Instruction::LoadRegistersFromMem(nib(5)));
    assert_eq!(decode(0xF5, 0x33).unwrap(), Instruction::RegisterToBCD(nib(5)));
}

#[test]
fn decode_arithmetic_family() {
    assert_eq!(decode(0x71, 0x99).unwrap(), Instruction::AddRegister(nib(1), 0x99));
    assert_eq!(decode(0x81, 0x21).unwrap(), Instruction::OrRegisters(nib(1), nib(2)));
    assert_eq!(decode(0x81, 0x22).unwrap(), Instruction::AndRegisters(nib(1), nib(2)));
    assert_eq!(decode(0x81, 0x23).unwrap(), Instruction::XorRegisters(nib(1), nib(2)));
    assert_eq!(decode(0x81, 0x24).unwrap(), Instruction::AddRegisters(nib(1), nib(2)));
    assert_eq!(decode(0x81, 0x25).unwrap(), Instruction::SubRegisters(nib(1), nib(2)));
    assert_eq!(decode(0x81, 0x26).unwrap(), Instruction::RShiftRegisters(nib(1), nib(2)));
    assert_eq!(decode(0x81, 0x27).unwrap(), Instruction::SubRegisterReversed(nib(1), nib(2)));
    assert_eq!(decode(0x81, 0x2E).unwrap(), Instruction::LShiftRegisters(nib(1), nib(2)));
    assert_eq!(decode(0xF2, 0x1E).unwrap(), Instruction::AddAddressRegister(nib(2)));
}

#[test]
fn decode_screen_timers_keys() {
    assert_eq!(decode(0xD1, 0x2F).unwrap(), Instruction::DrawSprite(nib(1), nib(2), nib(0xF)));
    assert_eq!(decode(0xF6, 0x15).unwrap(), Instruction::SetDelayTimer(nib(6)));
    assert_eq!(decode(0xF6, 0x18).unwrap(), Instruction::SetSoundTimer(nib(6)));
    assert_eq!(decode(0xF6, 0x0A).unwrap(), Instruction::WaitForKeyDown(nib(6)));
}

#[test]
fn decode_rejects_unknown_opcodes_with_the_raw_word() {
    for (hi, lo) in [
        (0x00u8, 0x00u8),
        (0x00, 0xE1),
        (0x00, 0xFF),
        (0x5A, 0xB1),
        (0x8A, 0xB8),
        (0x8A, 0xBF),
        (0x9A, 0xB5),
        (0xE3, 0x9F),
        (0xE3, 0x00),
        (0xF5, 0x00),
        (0xF5, 0x66),
        (0xF5, 0xFF),
    ] {
        let code = OpCode::from_bytes(hi, lo);
        assert_eq!(Instruction::try_from(code), Err(InterpreterError::UnknownOpCode(code)));
    }
}
