use chip8_interpreter::Address;
use chip8_interpreter::InterpreterError;
use chip8_interpreter::Stack;

#[test]
fn stack_pushes_then_pops_in_exact_reverse_order() {
    let mut stack = Stack::new();
    let values: Vec<u16> = vec![512, 514, 600, 4095, 0, 1, 2, 3, 4, 5, 6, 7, 8, 9, 10];
    assert_eq!(values.len(), 15);
    for v in &values {
        assert_eq!(stack.push(Address::try_from(*v).unwrap()), Ok(()));
    }
    for v in values.iter().rev() {
        assert_eq!(stack.pop().unwrap().as_u16(), *v);
    }
    assert_eq!(stack.pop(), Err(InterpreterError::StackUnderflow));
}

#[test]
fn stack_sixteenth_push_overflows_and_leaves_the_stack_unchanged() {
    let mut stack = Stack::new();
    for v in 0..15u16 {
        assert_eq!(stack.push(Address::try_from(v).unwrap()), Ok(()));
    }
    assert_eq!(
        stack.push(Address::try_from(999).unwrap()),
        Err(InterpreterError::StackOverflow)
    );
    // The failed push mutated nothing: all 15 stored addresses come back.
    for v in (0..15u16).rev() {
        assert_eq!(stack.pop().unwrap().as_u16(), v);
    }
    assert_eq!(stack.pop(), Err(InterpreterError::StackUnderflow));
}

#[test]
fn stack_pop_on_empty_underflows_and_leaves_the_stack_unchanged() {
    let mut stack = Stack::new();
    assert_eq!(stack.pop(), Err(InterpreterError::StackUnderflow));
    assert_eq!(stack.push(Address::try_from(123).unwrap()), Ok(()));
    assert_eq!(stack.pop().unwrap().as_u16(), 123);
    // Emptied by pops, not only freshly created: still a clean underflow.
    assert_eq!(stack.pop(), Err(InterpreterError::StackUnderflow));
    assert_eq!(stack.push(Address::try_from(77).unwrap()), Ok(()));
    assert_eq!(stack.pop().unwrap().as_u16(), 77);
}
