//! A verified CHIP-8 core: a fetch-decode-execute engine over a 4096-byte
//! memory, sixteen 8-bit registers, a bounded call stack and a monochrome
//! framebuffer, together with a timed scheduler that interleaves instruction
//! execution with the delay and sound timers.

mod address;
mod controlled_interpreter;
mod errors;
mod executable;
mod interpreter;
mod keyboard;
mod memory;
mod nibble;
mod platform;
mod registers;
mod screen;
mod sprite;
mod stack;

pub use address::wrapped_address;
pub use address::Address;
pub use controlled_interpreter::advance_rel;
pub use controlled_interpreter::count_delay_events;
pub use controlled_interpreter::count_instr_events;
pub use controlled_interpreter::count_sound_events;
pub use controlled_interpreter::lemma_tick_counts;
pub use controlled_interpreter::lemma_advance_chunked;
pub use controlled_interpreter::lemma_run_rel_compose;
pub use controlled_interpreter::lemma_run_timers_additive;
pub use controlled_interpreter::min_until;
pub use controlled_interpreter::run_rel;
pub use controlled_interpreter::run_timers;
pub use controlled_interpreter::sched_wf;
pub use controlled_interpreter::timer_after;
pub use controlled_interpreter::timer_wf;
pub use controlled_interpreter::until_tick;
pub use controlled_interpreter::ControlledInterpreter;
pub use controlled_interpreter::Event;
pub use controlled_interpreter::SchedView;
pub use controlled_interpreter::Timer;
pub use controlled_interpreter::DEFAULT_DELAY_TIMER_DURATION;
pub use controlled_interpreter::DEFAULT_INSTRUCTION_DURATION;
pub use controlled_interpreter::DEFAULT_SOUND_TIMER_DURATION;
pub use errors::InterpreterError;
pub use executable::loaded_memory;
pub use executable::BaseExecutable;
pub use executable::Chip8BaseExecutable;
pub use executable::Executable;
pub use interpreter::address_of;
pub use interpreter::byte_of;
pub use interpreter::cycle_rel;
pub use interpreter::instr_rel;
pub use interpreter::latch_rel;
pub use interpreter::lemma_carry_borrow;
pub use interpreter::load_block;
pub use interpreter::nibble_of;
pub use interpreter::plat_view;
pub use interpreter::proc_rel;
pub use interpreter::spec_decode;
pub use interpreter::sprite_rows_at;
pub use interpreter::word_at;
pub use interpreter::word_of;
pub use interpreter::wrap16;
pub use interpreter::write_block;
pub use interpreter::Instruction;
pub use interpreter::Interpreter;
pub use interpreter::MachineView;
pub use interpreter::OpCode;
pub use interpreter::PlatView;
pub use keyboard::Key;
pub use keyboard::Keyboard;
pub use memory::zeroed_memory;
pub use memory::Memory;
pub use nibble::Nibble;
pub use platform::saturating_dec;
pub use platform::BasePlatform;
pub use platform::Platform;
pub use platform::RandomGenerator;
pub use registers::zeroed_registers;
pub use registers::Registers;
pub use screen::blank_screen;
pub use screen::draw_collides;
pub use screen::draw_on_screen;
pub use screen::lemma_draw_double_toggle;
pub use screen::screen_wf;
pub use screen::sprite_covers;
pub use screen::sprite_row_bit;
pub use screen::ScreenFrame;
pub use screen::SCREEN_HEIGHT;
pub use screen::SCREEN_WIDTH;
pub use sprite::row_major_before;
pub use sprite::Point;
pub use sprite::Sprite;
pub use stack::lemma_stack_lifo;
pub use stack::Stack;
