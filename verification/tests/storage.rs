use chip8_interpreter::Address;
use chip8_interpreter::BaseExecutable;
use chip8_interpreter::BasePlatform;
use chip8_interpreter::Executable;
use chip8_interpreter::Interpreter;
use chip8_interpreter::InterpreterError;
use chip8_interpreter::Memory;
use chip8_interpreter::Nibble;
use chip8_interpreter::OpCode;
use chip8_interpreter::RandomGenerator;
use chip8_interpreter::Registers;

struct FixedRand(u8);

impl RandomGenerator for FixedRand {
    fn random_byte(&mut self) -> u8 {
        self.0
    }
}

#[test]
fn memory_starts_zeroed_and_stores_bytes() {
    let mut memory = Memory::new();
    let a = Address::try_from(0x123).unwrap();
    let b = Address::try_from(0x124).unwrap();
    assert_eq!(memory.read(a), 0);
    memory.write(a, 0xAB);
    assert_eq!(memory.read(a), 0xAB);
    assert_eq!(memory.read(b), 0);
    assert_eq!(memory.read(Address::try_from(4095).unwrap()), 0);
}

#[test]
fn registers_start_zeroed_and_store_values() {
    let mut registers = Registers::new();
    let three = Nibble::try_from(3).unwrap();
    assert_eq!(registers.get(three), 0);
    registers.set(three, 0x7E);
    assert_eq!(registers.get(three), 0x7E);
    assert_eq!(registers.get(Nibble::try_from(4).unwrap()), 0);
}

#[test]
fn loader_copies_the_image_and_reports_the_load_address() {
    let executable = BaseExecutable::new(vec![0x12, 0x34], Address::new::<0x200>());
    assert_eq!(executable.get_entry_point().as_u16(), 0x200);
    let mut memory = Memory::new();
    executable.load_into_memory(&mut memory);
    assert_eq!(memory.read(Address::try_from(0x200).unwrap()), 0x12);
    assert_eq!(memory.read(Address::try_from(0x201).unwrap()), 0x34);
    assert_eq!(memory.read(Address::try_from(0x202).unwrap()), 0);
    assert_eq!(memory.read(Address::try_from(0x1FF).unwrap()), 0);
}

#[test]
fn loader_entry_follows_the_load_point() {
    // An image placed at 0x300 starts executing there: the first cycle
    // runs its clear-screen instruction, not the zeroes at 0x200.
    let executable = BaseExecutable::new(vec![0x00, 0xE0], Address::new::<0x300>());
    assert_eq!(executable.get_entry_point().as_u16(), 0x300);
    let mut interpreter = Interpreter::new(BasePlatform::new(FixedRand(0)), executable);
    assert_eq!(interpreter.get_instruction_address().as_u16(), 0x300);
    assert_eq!(interpreter.run_next(), Ok(()));
    assert_eq!(interpreter.get_instruction_address().as_u16(), 0x302);
}

#[test]
fn zeroed_memory_is_no_legal_program() {
    // An empty image leaves the zero word at the entry, which is no legal
    // instruction: the first cycle reports it and the crash latches.
    let executable = BaseExecutable::new(Vec::new(), Address::new::<0x200>());
    let mut interpreter = Interpreter::new(BasePlatform::new(FixedRand(0)), executable);
    assert_eq!(
        interpreter.run_next(),
        Err(InterpreterError::UnknownOpCode(OpCode::from_bytes(0, 0)))
    );
    assert_eq!(interpreter.run_next(), Err(InterpreterError::Crashed));
}
