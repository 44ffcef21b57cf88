use vstd::prelude::*;

use crate::address::Address;
use crate::address::wrapped_address;
use crate::errors::InterpreterError;
use crate::executable::loaded_memory;
use crate::executable::Executable;
use crate::memory::zeroed_memory;
use crate::memory::Memory;
use crate::nibble::Nibble;
use crate::platform::saturating_dec;
use crate::platform::Platform;
use crate::registers::zeroed_registers;
use crate::registers::Registers;
use crate::screen::blank_screen;
use crate::screen::draw_collides;
use crate::screen::draw_on_screen;
use crate::sprite::Point;
use crate::sprite::Sprite;
use crate::stack::Stack;

verus! {

/// The `index`-th 4-bit field of an instruction word, counted from the
/// least significant end.
pub open spec fn nibble_of(w: u16, index: u32) -> u8 {
    (((w as u32) >> ((4 * index) as u32)) & 0xF) as u8
}

/// The `index`-th byte of an instruction word, counted from the least
/// significant end.
pub open spec fn byte_of(w: u16, index: u32) -> u8 {
    (((w as u32) >> ((8 * index) as u32)) & 0xFF) as u8
}

/// The low 12 bits of an instruction word: its address field.
pub open spec fn address_of(w: u16) -> u16 {
    w & 0xFFF
}

/// The 16-bit instruction word built from its high and low bytes.
pub open spec fn word_of(high: u8, low: u8) -> u16 {
    (((high as u32) << 8u32) | (low as u32)) as u16
}

/// A raw 16-bit instruction word, read big-endian from memory and
/// decomposed into nibble, byte and address fields by bit position.
#[derive(Clone, Copy, Debug, PartialEq, Eq, Structural)]
pub struct OpCode(pub(crate) u16);

impl OpCode {
    /// The raw word, for use in specifications.
    pub open(crate) spec fn value(self) -> u16 {
        self.0
    }

    pub fn from_bytes(first: u8, second: u8) -> (r: Self)
        ensures
            r.value() == word_of(first, second),
    {
        Self((((first as u32) << 8u32) | (second as u32)) as u16)
    }

    pub fn get_nibble(self, index: u32) -> (r: Nibble)
        requires
            index <= 3,
        ensures
            r.value() == nibble_of(self.value(), index),
    {
        let raw: u32 = ((self.0 as u32) >> (4 * index)) & 0xF;
        proof {
            let w: u32 = self.0 as u32;
            let s: u32 = (4 * index) as u32;
            assert((w >> s) & 0xF <= 15) by (bit_vector);
        }
        Nibble(raw as u8)
    }

    pub fn get_word(self, index: u32) -> (r: u8)
        requires
            index <= 1,
        ensures
            r == byte_of(self.value(), index),
    {
        let raw: u32 = ((self.0 as u32) >> (8 * index)) & 0xFF;
        raw as u8
    }

    pub fn get_address(self) -> (r: Address)
        ensures
            r.value() == address_of(self.value()),
    {
        let raw: u16 = self.0 & 0xFFF;
        proof {
            let w: u16 = self.0;
            assert(w & 0xFFF <= 4095) by (bit_vector);
        }
        Address(raw)
    }
}

/// The closed set of legal decoded instruction forms. Exactly one variant
/// matches a well-formed opcode; a word outside the mapping decodes to the
/// unknown-opcode fault.
#[derive(Clone, Copy, Debug, PartialEq, Eq, Structural)]
pub enum Instruction {
    SkipIfEqual(Nibble, u8),
    SkipIfNotEqual(Nibble, u8),
    SkipIfRegistersEqual(Nibble, Nibble),
    SkipIfRegistersNotEqual(Nibble, Nibble),
    SkipIfKeyDown(Nibble),
    SkipIfKeyUp(Nibble),
    SetRegister(Nibble, u8),
    CopyRegister(Nibble, Nibble),
    SetAddressRegister(Address),
    SetRegisterRandom(Nibble, u8),
    GetDelayTimer(Nibble),
    WriteRegistersToMem(Nibble),
    LoadRegistersFromMem(Nibble),
    RegisterToBCD(Nibble),
    AddRegister(Nibble, u8),
    OrRegisters(Nibble, Nibble),
    AndRegisters(Nibble, Nibble),
    XorRegisters(Nibble, Nibble),
    AddAddressRegister(Nibble),
    AddRegisters(Nibble, Nibble),
    SubRegisters(Nibble, Nibble),
    RShiftRegisters(Nibble, Nibble),
    SubRegisterReversed(Nibble, Nibble),
    LShiftRegisters(Nibble, Nibble),
    ClearScreen,
    DrawSprite(Nibble, Nibble, Nibble),
    SetDelayTimer(Nibble),
    SetSoundTimer(Nibble),
    WaitForKeyDown(Nibble),
    Jump(Address),
    JumpV0(Address),
    Call(Address),
    Return,
}

/// The full decoding map from a raw 16-bit word to its instruction, driven
/// by the highest nibble and disambiguated by the lowest nibble or byte;
/// `None` is the unknown-opcode condition.
pub open(crate) spec fn spec_decode(w: u16) -> Option<Instruction> {
    let n3 = nibble_of(w, 3);
    let n2 = nibble_of(w, 2);
    let n1 = nibble_of(w, 1);
    let n0 = nibble_of(w, 0);
    let x = Nibble(n2);
    let y = Nibble(n1);
    let kk = byte_of(w, 0);
    let nnn = Address(address_of(w));
    if n3 == 0x0 {
        if n2 == 0x0 && n1 == 0xE && n0 == 0x0 {
            Some(Instruction::ClearScreen)
        } else if n2 == 0x0 && n1 == 0xE && n0 == 0xE {
            Some(Instruction::Return)
        } else {
            None
        }
    } else if n3 == 0x1 {
        Some(Instruction::Jump(nnn))
    } else if n3 == 0x2 {
        Some(Instruction::Call(nnn))
    } else if n3 == 0x3 {
        Some(Instruction::SkipIfEqual(x, kk))
    } else if n3 == 0x4 {
        Some(Instruction::SkipIfNotEqual(x, kk))
    } else if n3 == 0x5 {
        if n0 == 0x0 {
            Some(Instruction::SkipIfRegistersEqual(x, y))
        } else {
            None
        }
    } else if n3 == 0x6 {
        Some(Instruction::SetRegister(x, kk))
    } else if n3 == 0x7 {
        Some(Instruction::AddRegister(x, kk))
    } else if n3 == 0x8 {
        if n0 == 0x0 {
            Some(Instruction::CopyRegister(x, y))
        } else if n0 == 0x1 {
            Some(Instruction::OrRegisters(x, y))
        } else if n0 == 0x2 {
            Some(Instruction::AndRegisters(x, y))
        } else if n0 == 0x3 {
            Some(Instruction::XorRegisters(x, y))
        } else if n0 == 0x4 {
            Some(Instruction::AddRegisters(x, y))
        } else if n0 == 0x5 {
            Some(Instruction::SubRegisters(x, y))
        } else if n0 == 0x6 {
            Some(Instruction::RShiftRegisters(x, y))
        } else if n0 == 0x7 {
            Some(Instruction::SubRegisterReversed(x, y))
        } else if n0 == 0xE {
            Some(Instruction::LShiftRegisters(x, y))
        } else {
            None
        }
    } else if n3 == 0x9 {
        if n0 == 0x0 {
            Some(Instruction::SkipIfRegistersNotEqual(x, y))
        } else {
            None
        }
    } else if n3 == 0xA {
        Some(Instruction::SetAddressRegister(nnn))
    } else if n3 == 0xB {
        Some(Instruction::JumpV0(nnn))
    } else if n3 == 0xC {
        Some(Instruction::SetRegisterRandom(x, kk))
    } else if n3 == 0xD {
        Some(Instruction::DrawSprite(x, y, Nibble(n0)))
    } else if n3 == 0xE {
        if n1 == 0x9 && n0 == 0xE {
            Some(Instruction::SkipIfKeyDown(x))
        } else if n1 == 0xA && n0 == 0x1 {
            Some(Instruction::SkipIfKeyUp(x))
        } else {
            None
        }
    } else {
        if n1 == 0x0 && n0 == 0x7 {
            Some(Instruction::GetDelayTimer(x))
        } else if n1 == 0x0 && n0 == 0xA {
            Some(Instruction::WaitForKeyDown(x))
        } else if n1 == 0x1 && n0 == 0x5 {
            Some(Instruction::SetDelayTimer(x))
        } else if n1 == 0x1 && n0 == 0x8 {
            Some(Instruction::SetSoundTimer(x))
        } else if n1 == 0x1 && n0 == 0xE {
            Some(Instruction::AddAddressRegister(x))
        } else if n1 == 0x3 && n0 == 0x3 {
            Some(Instruction::RegisterToBCD(x))
        } else if n1 == 0x5 && n0 == 0x5 {
            Some(Instruction::WriteRegistersToMem(x))
        } else if n1 == 0x6 && n0 == 0x5 {
            Some(Instruction::LoadRegistersFromMem(x))
        } else {
            None
        }
    }
}

impl Instruction {
    /// Classifies an opcode; fails with `UnknownOpCode`, carrying the raw
    /// word, exactly on the words the decoding map leaves out.
    pub fn try_from(code: OpCode) -> (r: Result<Instruction, InterpreterError>)
        ensures
            r matches Ok(i) ==> spec_decode(code.value()) == Some(i),
            r is Err <==> spec_decode(code.value()) is None,
            r is Err ==> r == Err::<Instruction, InterpreterError>(
                InterpreterError::UnknownOpCode(code),
            ),
    {
        let n3 = code.get_nibble(3).as_u8();
        let n2 = code.get_nibble(2).as_u8();
        let n1 = code.get_nibble(1).as_u8();
        let n0 = code.get_nibble(0).as_u8();
        let instruction = if n3 == 0x0 {
            if n2 == 0x0 && n1 == 0xE && n0 == 0x0 {
                Instruction::ClearScreen
            } else if n2 == 0x0 && n1 == 0xE && n0 == 0xE {
                Instruction::Return
            } else {
                return Err(InterpreterError::UnknownOpCode(code));
            }
        } else if n3 == 0x1 {
            Instruction::Jump(code.get_address())
        } else if n3 == 0x2 {
            Instruction::Call(code.get_address())
        } else if n3 == 0x3 {
            Instruction::SkipIfEqual(code.get_nibble(2), code.get_word(0))
        } else if n3 == 0x4 {
            Instruction::SkipIfNotEqual(code.get_nibble(2), code.get_word(0))
        } else if n3 == 0x5 {
            if n0 == 0x0 {
                Instruction::SkipIfRegistersEqual(code.get_nibble(2), code.get_nibble(1))
            } else {
                return Err(InterpreterError::UnknownOpCode(code));
            }
        } else if n3 == 0x6 {
            Instruction::SetRegister(code.get_nibble(2), code.get_word(0))
        } else if n3 == 0x7 {
            Instruction::AddRegister(code.get_nibble(2), code.get_word(0))
        } else if n3 == 0x8 {
            if n0 == 0x0 {
                Instruction::CopyRegister(code.get_nibble(2), code.get_nibble(1))
            } else if n0 == 0x1 {
                Instruction::OrRegisters(code.get_nibble(2), code.get_nibble(1))
            } else if n0 == 0x2 {
                Instruction::AndRegisters(code.get_nibble(2), code.get_nibble(1))
            } else if n0 == 0x3 {
                Instruction::XorRegisters(code.get_nibble(2), code.get_nibble(1))
            } else if n0 == 0x4 {
                Instruction::AddRegisters(code.get_nibble(2), code.get_nibble(1))
            } else if n0 == 0x5 {
                Instruction::SubRegisters(code.get_nibble(2), code.get_nibble(1))
            } else if n0 == 0x6 {
                Instruction::RShiftRegisters(code.get_nibble(2), code.get_nibble(1))
            } else if n0 == 0x7 {
                Instruction::SubRegisterReversed(code.get_nibble(2), code.get_nibble(1))
            } else if n0 == 0xE {
                Instruction::LShiftRegisters(code.get_nibble(2), code.get_nibble(1))
            } else {
                return Err(InterpreterError::UnknownOpCode(code));
            }
        } else if n3 == 0x9 {
            if n0 == 0x0 {
                Instruction::SkipIfRegistersNotEqual(code.get_nibble(2), code.get_nibble(1))
            } else {
                return Err(InterpreterError::UnknownOpCode(code));
            }
        } else if n3 == 0xA {
            Instruction::SetAddressRegister(code.get_address())
        } else if n3 == 0xB {
            Instruction::JumpV0(code.get_address())
        } else if n3 == 0xC {
            Instruction::SetRegisterRandom(code.get_nibble(2), code.get_word(0))
        } else if n3 == 0xD {
            Instruction::DrawSprite(code.get_nibble(2), code.get_nibble(1), code.get_nibble(0))
        } else if n3 == 0xE {
            if n1 == 0x9 && n0 == 0xE {
                Instruction::SkipIfKeyDown(code.get_nibble(2))
            } else if n1 == 0xA && n0 == 0x1 {
                Instruction::SkipIfKeyUp(code.get_nibble(2))
            } else {
                return Err(InterpreterError::UnknownOpCode(code));
            }
        } else {
            if n1 == 0x0 && n0 == 0x7 {
                Instruction::GetDelayTimer(code.get_nibble(2))
            } else if n1 == 0x0 && n0 == 0xA {
                Instruction::WaitForKeyDown(code.get_nibble(2))
            } else if n1 == 0x1 && n0 == 0x5 {
                Instruction::SetDelayTimer(code.get_nibble(2))
            } else if n1 == 0x1 && n0 == 0x8 {
                Instruction::SetSoundTimer(code.get_nibble(2))
            } else if n1 == 0x1 && n0 == 0xE {
                Instruction::AddAddressRegister(code.get_nibble(2))
            } else if n1 == 0x3 && n0 == 0x3 {
                Instruction::RegisterToBCD(code.get_nibble(2))
            } else if n1 == 0x5 && n0 == 0x5 {
                Instruction::WriteRegistersToMem(code.get_nibble(2))
            } else if n1 == 0x6 && n0 == 0x5 {
                Instruction::LoadRegistersFromMem(code.get_nibble(2))
            } else {
                return Err(InterpreterError::UnknownOpCode(code));
            }
        };
        Ok(instruction)
    }
}

/// A machine address reduced to the 4096-cell ring.
pub open spec fn wrap16(a: int) -> u16 {
    wrapped_address(a) as u16
}

/// The big-endian instruction word stored at `ip`.
pub open spec fn word_at(mem: Seq<u8>, ip: u16) -> u16 {
    word_of(mem[ip as int], mem[wrap16(ip + 1) as int])
}

/// Memory after storing registers `0..=k` at consecutive (wrapping)
/// addresses from `idx`.
pub open spec fn write_block(mem: Seq<u8>, idx: int, regs: Seq<u8>, k: int) -> Seq<u8>
    decreases k + 1,
{
    if k < 0 {
        mem
    } else {
        write_block(mem, idx, regs, k - 1).update(wrapped_address(idx + k), regs[k])
    }
}

/// Registers after loading cells `0..=k` from consecutive (wrapping)
/// addresses from `idx`.
pub open spec fn load_block(regs: Seq<u8>, mem: Seq<u8>, idx: int, k: int) -> Seq<u8>
    decreases k + 1,
{
    if k < 0 {
        regs
    } else {
        load_block(regs, mem, idx, k - 1).update(k, mem[wrapped_address(idx + k)])
    }
}

/// The `n` sprite row bitmaps stored at consecutive (wrapping) addresses
/// from `idx`.
pub open spec fn sprite_rows_at(mem: Seq<u8>, idx: int, n: int) -> Seq<u8> {
    Seq::new(n as nat, |j: int| mem[wrapped_address(idx + j)])
}

/// The interpreter's machine state as plain values: the register file, the
/// index register, memory, the instruction pointer, the call stack from
/// bottom to top, the pending key-wait destination, and the crash latch.
#[verifier::ext_equal]
pub struct MachineView {
    pub regs: Seq<u8>,
    pub index: u16,
    pub mem: Seq<u8>,
    pub ip: u16,
    pub stack: Seq<u16>,
    pub expecting: Option<u8>,
    pub crashed: bool,
}

/// A platform's observable state as plain values.
#[verifier::ext_equal]
pub struct PlatView {
    pub screen: Seq<Seq<bool>>,
    pub delay: u8,
    pub sound: u8,
    pub keys: Seq<bool>,
    pub pending: Option<u8>,
}

/// The observable state of any platform.
pub open spec fn plat_view<P: Platform>(p: &P) -> PlatView {
    PlatView {
        screen: p.screen_view(),
        delay: p.delay_value(),
        sound: p.sound_value(),
        keys: Seq::new(16, |k: int| p.key_down_view(k)),
        pending: match p.pending_key() {
            Some(n) => Some(n.value()),
            None => None,
        },
    }
}

/// The exact effect of executing one decoded instruction from machine
/// state `m` and platform state `p`: which states `m1`, `p1` and which
/// result `r` one execution step produces. Fault cases state their
/// condition exactly and leave both states unchanged; the crash latch is
/// applied by the caller, not here.
pub open(crate) spec fn instr_rel(
    i: Instruction,
    m: MachineView,
    p: PlatView,
    m1: MachineView,
    p1: PlatView,
    r: Result<(), InterpreterError>,
) -> bool {
    match i {
        Instruction::SkipIfEqual(x, kk) => r is Ok && p1 == p && m1 == MachineView {
            ip: wrap16(m.ip + if m.regs[x.value() as int] == kk { 4int } else { 2 }),
            ..m
        },
        Instruction::SkipIfNotEqual(x, kk) => r is Ok && p1 == p && m1 == MachineView {
            ip: wrap16(m.ip + if m.regs[x.value() as int] != kk { 4int } else { 2 }),
            ..m
        },
        Instruction::SkipIfRegistersEqual(x, y) => r is Ok && p1 == p && m1 == MachineView {
            ip: wrap16(
                m.ip + if m.regs[x.value() as int] == m.regs[y.value() as int] { 4int } else { 2 },
            ),
            ..m
        },
        Instruction::SkipIfRegistersNotEqual(x, y) => r is Ok && p1 == p && m1 == MachineView {
            ip: wrap16(
                m.ip + if m.regs[x.value() as int] != m.regs[y.value() as int] { 4int } else { 2 },
            ),
            ..m
        },
        Instruction::SkipIfKeyDown(x) => if m.regs[x.value() as int] > 15 {
            r == Err::<(), InterpreterError>(InterpreterError::NibbleOverflow) && m1 == m && p1 == p
        } else {
            r is Ok && p1 == p && m1 == MachineView {
                ip: wrap16(m.ip + if p.keys[m.regs[x.value() as int] as int] { 4int } else { 2 }),
                ..m
            }
        },
        Instruction::SkipIfKeyUp(x) => if m.regs[x.value() as int] > 15 {
            r == Err::<(), InterpreterError>(InterpreterError::NibbleOverflow) && m1 == m && p1 == p
        } else {
            r is Ok && p1 == p && m1 == MachineView {
                ip: wrap16(m.ip + if !p.keys[m.regs[x.value() as int] as int] { 4int } else { 2 }),
                ..m
            }
        },
        Instruction::SetRegister(x, kk) => r is Ok && p1 == p && m1 == MachineView {
            regs: m.regs.update(x.value() as int, kk),
            ip: wrap16(m.ip + 2),
            ..m
        },
        Instruction::CopyRegister(x, y) => r is Ok && p1 == p && m1 == MachineView {
            regs: m.regs.update(x.value() as int, m.regs[y.value() as int]),
            ip: wrap16(m.ip + 2),
            ..m
        },
        Instruction::SetAddressRegister(a) => r is Ok && p1 == p && m1 == MachineView {
            index: a.value(),
            ip: wrap16(m.ip + 2),
            ..m
        },
        Instruction::SetRegisterRandom(x, kk) => r is Ok && p1 == p && m1.regs.len()
            == m.regs.len() && (m1.regs[x.value() as int] | kk) == kk && (forall|i: int|
            0 <= i < m.regs.len() && i != x.value() as int ==> m1.regs[i] == m.regs[i]) && m1
            == (MachineView { regs: m1.regs, ip: wrap16(m.ip + 2), ..m }),
        Instruction::GetDelayTimer(x) => r is Ok && p1 == p && m1 == MachineView {
            regs: m.regs.update(x.value() as int, p.delay),
            ip: wrap16(m.ip + 2),
            ..m
        },
        Instruction::WriteRegistersToMem(n) => r is Ok && p1 == p && m1 == MachineView {
            mem: write_block(m.mem, m.index as int, m.regs, n.value() as int),
            index: wrap16(m.index + n.value() + 1),
            ip: wrap16(m.ip + 2),
            ..m
        },
        Instruction::LoadRegistersFromMem(n) => r is Ok && p1 == p && m1 == MachineView {
            regs: load_block(m.regs, m.mem, m.index as int, n.value() as int),
            index: wrap16(m.index + n.value() + 1),
            ip: wrap16(m.ip + 2),
            ..m
        },
        Instruction::RegisterToBCD(x) => {
            let v = m.regs[x.value() as int] as int;
            r is Ok && p1 == p && m1 == MachineView {
                mem: m.mem.update(wrapped_address(m.index as int), ((v / 100) % 10) as u8).update(
                    wrapped_address(m.index + 1),
                    ((v / 10) % 10) as u8,
                ).update(wrapped_address(m.index + 2), (v % 10) as u8),
                ip: wrap16(m.ip + 2),
                ..m
            }
        },
        Instruction::AddRegister(x, kk) => r is Ok && p1 == p && m1 == MachineView {
            regs: m.regs.update(
                x.value() as int,
                ((m.regs[x.value() as int] + kk) % 256) as u8,
            ),
            ip: wrap16(m.ip + 2),
            ..m
        },
        Instruction::OrRegisters(x, y) => r is Ok && p1 == p && m1 == MachineView {
            regs: m.regs.update(
                x.value() as int,
                m.regs[x.value() as int] | m.regs[y.value() as int],
            ).update(15, 0),
            ip: wrap16(m.ip + 2),
            ..m
        },
        Instruction::AndRegisters(x, y) => r is Ok && p1 == p && m1 == MachineView {
            regs: m.regs.update(
                x.value() as int,
                m.regs[x.value() as int] & m.regs[y.value() as int],
            ).update(15, 0),
            ip: wrap16(m.ip + 2),
            ..m
        },
        Instruction::XorRegisters(x, y) => r is Ok && p1 == p && m1 == MachineView {
            regs: m.regs.update(
                x.value() as int,
                m.regs[x.value() as int] ^ m.regs[y.value() as int],
            ).update(15, 0),
            ip: wrap16(m.ip + 2),
            ..m
        },
        Instruction::AddAddressRegister(x) => r is Ok && p1 == p && m1 == MachineView {
            index: wrap16(m.index + m.regs[x.value() as int]),
            ip: wrap16(m.ip + 2),
            ..m
        },
        Instruction::AddRegisters(x, y) => {
            let s = m.regs[x.value() as int] + m.regs[y.value() as int];
            r is Ok && p1 == p && m1 == MachineView {
                regs: m.regs.update(x.value() as int, (s % 256) as u8).update(
                    15,
                    if s > 255 { 1u8 } else { 0u8 },
                ),
                ip: wrap16(m.ip + 2),
                ..m
            }
        },
        Instruction::SubRegisters(x, y) => {
            let a = m.regs[x.value() as int] as int;
            let b = m.regs[y.value() as int] as int;
            r is Ok && p1 == p && m1 == MachineView {
                regs: m.regs.update(
                    x.value() as int,
                    (if a >= b { a - b } else { a - b + 256 }) as u8,
                ).update(15, if a >= b { 1u8 } else { 0u8 }),
                ip: wrap16(m.ip + 2),
                ..m
            }
        },
        Instruction::RShiftRegisters(x, y) => {
            let v = m.regs[y.value() as int];
            r is Ok && p1 == p && m1 == MachineView {
                regs: m.regs.update(x.value() as int, v >> 1u8).update(15, v & 1),
                ip: wrap16(m.ip + 2),
                ..m
            }
        },
        Instruction::SubRegisterReversed(x, y) => {
            let a = m.regs[x.value() as int] as int;
            let b = m.regs[y.value() as int] as int;
            r is Ok && p1 == p && m1 == MachineView {
                regs: m.regs.update(
                    x.value() as int,
                    (if b >= a { b - a } else { b - a + 256 }) as u8,
                ).update(15, if b >= a { 1u8 } else { 0u8 }),
                ip: wrap16(m.ip + 2),
                ..m
            }
        },
        Instruction::LShiftRegisters(x, y) => {
            let v = m.regs[y.value() as int];
            r is Ok && p1 == p && m1 == MachineView {
                regs: m.regs.update(x.value() as int, v << 1u8).update(15, (v & 0x80) >> 7u8),
                ip: wrap16(m.ip + 2),
                ..m
            }
        },
        Instruction::ClearScreen => r is Ok && m1 == MachineView { ip: wrap16(m.ip + 2), ..m }
            && p1 == PlatView { screen: blank_screen(), ..p },
        Instruction::DrawSprite(x, y, n) => {
            let px = (m.regs[x.value() as int] % 64) as int;
            let py = (m.regs[y.value() as int] % 32) as int;
            let rows = sprite_rows_at(m.mem, m.index as int, n.value() as int);
            let collided = draw_collides(p.screen, px, py, rows);
            r is Ok && m1 == MachineView {
                regs: m.regs.update(15, if collided { 1u8 } else { 0u8 }),
                ip: wrap16(m.ip + 2),
                ..m
            } && p1 == PlatView { screen: draw_on_screen(p.screen, px, py, rows), ..p }
        },
        Instruction::SetDelayTimer(x) => r is Ok && m1 == MachineView { ip: wrap16(m.ip + 2), ..m }
            && p1 == PlatView { delay: m.regs[x.value() as int], ..p },
        Instruction::SetSoundTimer(x) => r is Ok && m1 == MachineView { ip: wrap16(m.ip + 2), ..m }
            && p1 == PlatView { sound: m.regs[x.value() as int], ..p },
        Instruction::WaitForKeyDown(x) => r is Ok && m1 == MachineView {
            expecting: Some(x.value()),
            ip: wrap16(m.ip + 2),
            ..m
        } && p1 == PlatView { pending: None, ..p },
        Instruction::Jump(a) => r is Ok && p1 == p && m1 == MachineView { ip: a.value(), ..m },
        Instruction::JumpV0(a) => r is Ok && p1 == p && m1 == MachineView {
            ip: wrap16(a.value() + m.regs[0]),
            ..m
        },
        Instruction::Call(a) => if m.stack.len() >= 15 {
            r == Err::<(), InterpreterError>(InterpreterError::StackOverflow) && m1 == m && p1 == p
        } else {
            r is Ok && p1 == p && m1 == MachineView {
                stack: m.stack.push(wrap16(m.ip + 2)),
                ip: a.value(),
                ..m
            }
        },
        Instruction::Return => if m.stack.len() == 0 {
            r == Err::<(), InterpreterError>(InterpreterError::StackUnderflow) && m1 == m && p1 == p
        } else {
            r is Ok && p1 == p && m1 == MachineView {
                ip: m.stack.last(),
                stack: m.stack.drop_last(),
                ..m
            }
        },
    }
}

/// One fetch-decode-execute pass from machine state `m`: either the
/// fetched word decodes and `instr_rel` relates the states, or it does not
/// and the unknown-opcode fault is reported with both states unchanged.
/// The crash latch is applied by the caller, not here.
pub open(crate) spec fn proc_rel(
    m: MachineView,
    p: PlatView,
    m1: MachineView,
    p1: PlatView,
    r: Result<(), InterpreterError>,
) -> bool {
    let w = word_at(m.mem, m.ip);
    match spec_decode(w) {
        None => r == Err::<(), InterpreterError>(InterpreterError::UnknownOpCode(OpCode(w)))
            && m1 == m && p1 == p,
        Some(i) => instr_rel(i, m, p, m1, p1, r),
    }
}

/// One full execution cycle: a crashed interpreter fails at once and
/// touches nothing; a pending key-wait polls the platform and either stays
/// suspended (consuming nothing but the poll) or stores the released key
/// and falls through to one fetch-decode-execute pass; any fault latches
/// the crash flag with the rest of the state as the fault left it.
pub open(crate) spec fn cycle_rel(
    m0: MachineView,
    p0: PlatView,
    m1: MachineView,
    p1: PlatView,
    r: Result<(), InterpreterError>,
) -> bool {
    if m0.crashed {
        r == Err::<(), InterpreterError>(InterpreterError::Crashed) && m1 == m0 && p1 == p0
    } else {
        match m0.expecting {
            Some(x) => match p0.pending {
                None => r is Ok && m1 == m0 && p1 == PlatView { pending: None, ..p0 },
                Some(k) => latch_rel(
                    MachineView { regs: m0.regs.update(x as int, k), expecting: None, ..m0 },
                    PlatView { pending: None, ..p0 },
                    m1,
                    p1,
                    r,
                ),
            },
            None => latch_rel(m0, p0, m1, p1, r),
        }
    }
}

/// One fetch-decode-execute pass with the crash latch applied on faults.
pub open(crate) spec fn latch_rel(
    m: MachineView,
    p: PlatView,
    m1: MachineView,
    p1: PlatView,
    r: Result<(), InterpreterError>,
) -> bool {
    &&& (r is Ok ==> proc_rel(m, p, m1, p1, r))
    &&& (r is Err ==> m1 == MachineView { crashed: true, ..m } && p1 == p && proc_rel(
        m,
        p,
        m,
        p,
        r,
    ))
}

/// Carry and borrow law. For a register addition, a sum above 255 sets
/// the flag register to 1 and a sum within range sets it to 0; the
/// destination receives the wrapped sum (when the destination is the flag
/// register itself, the flag value wins, so that clause excludes it). For
/// a subtraction, a minuend smaller than the subtrahend sets the flag to
/// 0 — a borrow occurred — and otherwise to 1, with the wrapped
/// difference in the destination under the same exclusion.
pub proof fn lemma_carry_borrow(
    x: Nibble,
    y: Nibble,
    m: MachineView,
    p: PlatView,
    m1: MachineView,
    p1: PlatView,
    m2: MachineView,
    p2: PlatView,
)
    requires
        m.regs.len() == 16,
        x.value() <= 15,
        y.value() <= 15,
        instr_rel(Instruction::AddRegisters(x, y), m, p, m1, p1, Ok::<(), InterpreterError>(())),
        instr_rel(Instruction::SubRegisters(x, y), m, p, m2, p2, Ok::<(), InterpreterError>(())),
    ensures
        m.regs[x.value() as int] + m.regs[y.value() as int] > 255 ==> m1.regs[15] == 1,
        m.regs[x.value() as int] + m.regs[y.value() as int] <= 255 ==> m1.regs[15] == 0,
        x.value() != 15 ==> m1.regs[x.value() as int] as int == (m.regs[x.value() as int]
            + m.regs[y.value() as int]) % 256,
        m.regs[x.value() as int] < m.regs[y.value() as int] ==> m2.regs[15] == 0,
        m.regs[x.value() as int] >= m.regs[y.value() as int] ==> m2.regs[15] == 1,
        x.value() != 15 && m.regs[x.value() as int] >= m.regs[y.value() as int] ==> m2.regs[x.value() as int]
            == m.regs[x.value() as int] - m.regs[y.value() as int],
{
}

/// The fetch-decode-execute engine: memory, registers, index register,
/// instruction pointer, call stack, key-wait state, crash latch, and the
/// platform capability it drives. `run_next` performs one cycle whose
/// exact effect is `cycle_rel`.
pub struct Interpreter<P: Platform> {
    pub(crate) platform: P,
    pub(crate) registers: Registers,
    pub(crate) index_register: Address,
    pub(crate) memory: Memory,
    pub(crate) instruction_address: Address,
    pub(crate) stack: Stack,
    pub(crate) expecting_key: Option<Nibble>,
    pub(crate) is_crashed: bool,
}

impl<P: Platform> Interpreter<P> {
    /// Well-formedness: the platform's own invariant holds. The machine
    /// components carry their bounds in their own invariants.
    pub open(crate) spec fn wf(&self) -> bool {
        self.platform.inv()
    }

    /// The platform value, for use in specifications.
    pub open(crate) spec fn plat(&self) -> P {
        self.platform
    }

    /// The machine state as plain values.
    pub open(crate) spec fn machine(&self) -> MachineView {
        MachineView {
            regs: self.registers.contents(),
            index: self.index_register.value(),
            mem: self.memory.contents(),
            ip: self.instruction_address.value(),
            stack: self.stack.contents(),
            expecting: match self.expecting_key {
                Some(n) => Some(n.value()),
                None => None,
            },
            crashed: self.is_crashed,
        }
    }

    /// The platform's observable state as plain values.
    pub open(crate) spec fn pview(&self) -> PlatView {
        plat_view(&self.platform)
    }

    /// A fresh interpreter: zeroed registers and index register, empty
    /// stack, the program image copied over zeroed memory, the instruction
    /// pointer at the program's entry address, not crashed and not waiting
    /// for a key.
    pub fn new<E: Executable>(platform: P, executable: E) -> (r: Self)
        requires
            executable.wf(),
            platform.inv(),
        ensures
            r.wf(),
            r.machine() == (MachineView {
                regs: zeroed_registers(),
                index: 0,
                mem: loaded_memory(zeroed_memory(), executable.load_point(), executable.image()),
                ip: executable.entry().value(),
                stack: Seq::<u16>::empty(),
                expecting: None::<u8>,
                crashed: false,
            }),
            r.pview() == plat_view(&platform),
    {
        let entry = executable.get_entry_point();
        let mut memory = Memory::new();
        executable.load_into_memory(&mut memory);
        let r = Self {
            platform,
            registers: Registers::new(),
            index_register: Address::new::<0>(),
            memory,
            instruction_address: entry,
            stack: Stack::new(),
            expecting_key: None,
            is_crashed: false,
        };
        proof {
            assert(r.machine() =~= (MachineView {
                regs: zeroed_registers(),
                index: 0,
                mem: loaded_memory(zeroed_memory(), executable.load_point(), executable.image()),
                ip: executable.entry().value(),
                stack: Seq::<u16>::empty(),
                expecting: None::<u8>,
                crashed: false,
            }));
        }
        r
    }

    /// The platform, for the caller to mutate; the machine state stays as
    /// it was.
    pub fn get_platform_mut(&mut self) -> (p: &mut P)
        ensures
            *p == old(self).plat(),
            final(self).plat() == *final(p),
            final(self).machine() == old(self).machine(),
    {
        &mut self.platform
    }

    /// The value of register `index`, for callers that inspect progress.
    pub fn read_register(&self, index: Nibble) -> (r: u8)
        ensures
            r == self.machine().regs[index.value() as int],
    {
        self.registers.get(index)
    }

    /// The instruction pointer, for callers that inspect progress.
    pub fn get_instruction_address(&self) -> (r: Address)
        ensures
            r.value() == self.machine().ip,
    {
        self.instruction_address
    }

    /// Decrements the platform's delay timer by one, saturating at zero.
    pub fn tick_delay_timer(&mut self)
        requires
            old(self).wf(),
        ensures
            final(self).wf(),
            final(self).machine() == old(self).machine(),
            final(self).pview() == (PlatView {
                delay: saturating_dec(old(self).pview().delay),
                ..old(self).pview()
            }),
    {
        let v = self.platform.get_delay_timer();
        let nv = if v == 0 {
            0
        } else {
            v - 1
        };
        self.platform.set_delay_timer(nv);
        proof {
            assert(self.pview() =~= (PlatView {
                delay: saturating_dec(old(self).pview().delay),
                ..old(self).pview()
            }));
        }
    }

    /// Decrements the platform's sound timer by one, saturating at zero.
    pub fn tick_sound_timer(&mut self)
        requires
            old(self).wf(),
        ensures
            final(self).wf(),
            final(self).machine() == old(self).machine(),
            final(self).pview() == (PlatView {
                sound: saturating_dec(old(self).pview().sound),
                ..old(self).pview()
            }),
    {
        let v = self.platform.get_sound_timer();
        let nv = if v == 0 {
            0
        } else {
            v - 1
        };
        self.platform.set_sound_timer(nv);
        proof {
            assert(self.pview() =~= (PlatView {
                sound: saturating_dec(old(self).pview().sound),
                ..old(self).pview()
            }));
        }
    }

    /// Runs one execution cycle, exactly as `cycle_rel` states: a crashed
    /// interpreter fails at once; a pending key-wait polls the platform
    /// and stays suspended or resumes; otherwise one instruction is
    /// fetched, decoded and executed, and any fault latches the crash
    /// flag.
    pub fn run_next(&mut self) -> (r: Result<(), InterpreterError>)
        requires
            old(self).wf(),
        ensures
            final(self).wf(),
            cycle_rel(
                old(self).machine(),
                old(self).pview(),
                final(self).machine(),
                final(self).pview(),
                r,
            ),
    {
        if self.is_crashed {
            return Err(InterpreterError::Crashed);
        }
        if let Some(expecting) = self.expecting_key {
            let pressed = self.platform.get_last_pressed_key();
            match pressed {
                None => {
                    proof {
                        assert(self.pview() =~= (PlatView {
                            pending: None,
                            ..old(self).pview()
                        }));
                    }
                    return Ok(());
                },
                Some(key) => {
                    proof {
                        use_type_invariant(&key);
                    }
                    self.registers.set(expecting, key.as_u8());
                    self.expecting_key = None;
                    proof {
                        assert(self.machine() =~= (MachineView {
                            regs: old(self).machine().regs.update(
                                expecting.value() as int,
                                key.value(),
                            ),
                            expecting: None,
                            ..old(self).machine()
                        }));
                        assert(self.pview() =~= (PlatView {
                            pending: None,
                            ..old(self).pview()
                        }));
                    }
                },
            }
        }
        let res = self.process_next_instruction();
        if res.is_err() {
            let ghost mk = self.machine();
            self.is_crashed = true;
            proof {
                assert(self.machine() =~= (MachineView { crashed: true, ..mk }));
            }
            return res;
        }
        res
    }

    /// One fetch-decode-execute pass, exactly as `proc_rel` states; on a
    /// fault nothing is mutated and the crash latch is left to the caller.
    fn process_next_instruction(&mut self) -> (r: Result<(), InterpreterError>)
        requires
            old(self).wf(),
        ensures
            final(self).wf(),
            proc_rel(
                old(self).machine(),
                old(self).pview(),
                final(self).machine(),
                final(self).pview(),
                r,
            ),
            r is Err ==> final(self).machine() == old(self).machine() && final(self).pview()
                == old(self).pview(),
    {
        let ghost m0 = self.machine();
        let ghost p0 = self.pview();
        let hi = self.memory.read(self.instruction_address);
        let lo = self.memory.read(self.instruction_address.add_offset(1));
        let code = OpCode::from_bytes(hi, lo);
        proof {
            assert(code.value() == word_at(m0.mem, m0.ip));
        }
        let instruction = match Instruction::try_from(code) {
            Ok(i) => i,
            Err(e) => {
                return Err(e);
            },
        };
        self.execute_instruction(instruction)
    }

    /// Executes one decoded instruction, exactly as `instr_rel` states; on
    /// a fault nothing is mutated.
    fn execute_instruction(&mut self, instruction: Instruction) -> (r: Result<
        (),
        InterpreterError,
    >)
        requires
            old(self).wf(),
        ensures
            final(self).wf(),
            instr_rel(
                instruction,
                old(self).machine(),
                old(self).pview(),
                final(self).machine(),
                final(self).pview(),
                r,
            ),
            r is Err ==> final(self).machine() == old(self).machine() && final(self).pview()
                == old(self).pview(),
    {
        match instruction {
            Instruction::SkipIfEqual(..) | Instruction::SkipIfNotEqual(..) | Instruction::SkipIfRegistersEqual(..) | Instruction::SkipIfRegistersNotEqual(..) | Instruction::SkipIfKeyDown(..) | Instruction::SkipIfKeyUp(..) => self.exec_skip(instruction),
            Instruction::SetRegister(..) | Instruction::CopyRegister(..) | Instruction::SetAddressRegister(..) | Instruction::GetDelayTimer(..) => self.exec_register_loads(instruction),
            Instruction::SetRegisterRandom(..) => self.exec_random(instruction),
            Instruction::WriteRegistersToMem(..) | Instruction::LoadRegistersFromMem(..) | Instruction::RegisterToBCD(..) => self.exec_block_transfers(instruction),
            Instruction::AddRegister(..) | Instruction::OrRegisters(..) | Instruction::AndRegisters(..) | Instruction::XorRegisters(..) | Instruction::AddAddressRegister(..) | Instruction::AddRegisters(..) | Instruction::SubRegisters(..) | Instruction::RShiftRegisters(..) | Instruction::SubRegisterReversed(..) | Instruction::LShiftRegisters(..) => self.exec_math(instruction),
            Instruction::ClearScreen | Instruction::DrawSprite(..) => self.exec_screen(instruction),
            Instruction::SetDelayTimer(..) | Instruction::SetSoundTimer(..) | Instruction::WaitForKeyDown(..) => self.exec_timers_keys(instruction),
            Instruction::Jump(..) | Instruction::Call(..) | Instruction::Return | Instruction::JumpV0(..) => self.exec_control(instruction),
        }
    }

    /// Executes the conditional skips, exactly as `instr_rel` states.
    #[verifier::rlimit(60)]
    fn exec_skip(&mut self, instruction: Instruction) -> (r: Result<(), InterpreterError>)
        requires
            old(self).wf(),
            instruction is SkipIfEqual || instruction is SkipIfNotEqual || instruction is SkipIfRegistersEqual || instruction is SkipIfRegistersNotEqual || instruction is SkipIfKeyDown || instruction is SkipIfKeyUp,
        ensures
            final(self).wf(),
            instr_rel(
                instruction,
                old(self).machine(),
                old(self).pview(),
                final(self).machine(),
                final(self).pview(),
                r,
            ),
            r is Err ==> final(self).machine() == old(self).machine() && final(self).pview()
                == old(self).pview(),
    {
        let ghost m0 = self.machine();
        let ghost p0 = self.pview();
        match instruction {
            
            Instruction::SkipIfEqual(x, value) => {
                let taken = self.registers.get(x) == value;
                let step: i16 = if taken {
                    4
                } else {
                    2
                };
                self.instruction_address = self.instruction_address.add_offset(step);
                proof {
                    assert(self.machine() =~= (MachineView {
                        ip: wrap16(m0.ip + if m0.regs[x.value() as int] == value {
                            4int
                        } else {
                            2
                        }),
                        ..m0
                    }));
                }
                Ok(())
            },
            
            Instruction::SkipIfNotEqual(x, value) => {
                let taken = self.registers.get(x) != value;
                let step: i16 = if taken {
                    4
                } else {
                    2
                };
                self.instruction_address = self.instruction_address.add_offset(step);
                proof {
                    assert(self.machine() =~= (MachineView {
                        ip: wrap16(m0.ip + if m0.regs[x.value() as int] != value {
                            4int
                        } else {
                            2
                        }),
                        ..m0
                    }));
                }
                Ok(())
            },
            
            Instruction::SkipIfRegistersEqual(x, y) => {
                let taken = self.registers.get(x) == self.registers.get(y);
                let step: i16 = if taken {
                    4
                } else {
                    2
                };
                self.instruction_address = self.instruction_address.add_offset(step);
                proof {
                    assert(self.machine() =~= (MachineView {
                        ip: wrap16(
                            m0.ip + if m0.regs[x.value() as int] == m0.regs[y.value() as int] {
                                4int
                            } else {
                                2
                            },
                        ),
                        ..m0
                    }));
                }
                Ok(())
            },
            
            Instruction::SkipIfRegistersNotEqual(x, y) => {
                let taken = self.registers.get(x) != self.registers.get(y);
                let step: i16 = if taken {
                    4
                } else {
                    2
                };
                self.instruction_address = self.instruction_address.add_offset(step);
                proof {
                    assert(self.machine() =~= (MachineView {
                        ip: wrap16(
                            m0.ip + if m0.regs[x.value() as int] != m0.regs[y.value() as int] {
                                4int
                            } else {
                                2
                            },
                        ),
                        ..m0
                    }));
                }
                Ok(())
            },
            
            Instruction::SkipIfKeyDown(x) => {
                let v = self.registers.get(x);
                let key = match Nibble::try_from(v) {
                    Ok(k) => k,
                    Err(e) => {
                        return Err(e);
                    },
                };
                let taken = self.platform.is_key_down(key);
                let step: i16 = if taken {
                    4
                } else {
                    2
                };
                self.instruction_address = self.instruction_address.add_offset(step);
                proof {
                    assert(p0.keys[v as int] == taken);
                    assert(self.machine() =~= (MachineView {
                        ip: wrap16(m0.ip + if p0.keys[m0.regs[x.value() as int] as int] {
                            4int
                        } else {
                            2
                        }),
                        ..m0
                    }));
                }
                Ok(())
            },
            
            Instruction::SkipIfKeyUp(x) => {
                let v = self.registers.get(x);
                let key = match Nibble::try_from(v) {
                    Ok(k) => k,
                    Err(e) => {
                        return Err(e);
                    },
                };
                let taken = !self.platform.is_key_down(key);
                let step: i16 = if taken {
                    4
                } else {
                    2
                };
                self.instruction_address = self.instruction_address.add_offset(step);
                proof {
                    assert(p0.keys[v as int] == !taken);
                    assert(self.machine() =~= (MachineView {
                        ip: wrap16(m0.ip + if !p0.keys[m0.regs[x.value() as int] as int] {
                            4int
                        } else {
                            2
                        }),
                        ..m0
                    }));
                }
                Ok(())
            },
            _ => {
                proof {
                    assert(false);
                }
                Ok(())
            },
        }
    }

    /// Executes the register and memory transfers, exactly as `instr_rel` states.
    #[verifier::rlimit(100)]
    fn exec_register_loads(&mut self, instruction: Instruction) -> (r: Result<(), InterpreterError>)
        requires
            old(self).wf(),
            instruction is SetRegister || instruction is CopyRegister || instruction is SetAddressRegister || instruction is GetDelayTimer,
        ensures
            final(self).wf(),
            instr_rel(
                instruction,
                old(self).machine(),
                old(self).pview(),
                final(self).machine(),
                final(self).pview(),
                r,
            ),
            r is Err ==> final(self).machine() == old(self).machine() && final(self).pview()
                == old(self).pview(),
    {
        let ghost m0 = self.machine();
        let ghost p0 = self.pview();
        match instruction {
            
            Instruction::SetRegister(x, value) => {
                self.registers.set(x, value);
                self.instruction_address = self.instruction_address.add_offset(2);
                proof {
                    assert(self.machine() =~= (MachineView {
                        regs: m0.regs.update(x.value() as int, value),
                        ip: wrap16(m0.ip + 2),
                        ..m0
                    }));
                }
                Ok(())
            },
            
            Instruction::CopyRegister(x, y) => {
                let v = self.registers.get(y);
                self.registers.set(x, v);
                self.instruction_address = self.instruction_address.add_offset(2);
                proof {
                    assert(self.machine() =~= (MachineView {
                        regs: m0.regs.update(x.value() as int, m0.regs[y.value() as int]),
                        ip: wrap16(m0.ip + 2),
                        ..m0
                    }));
                }
                Ok(())
            },
            
            Instruction::SetAddressRegister(address) => {
                self.index_register = address;
                self.instruction_address = self.instruction_address.add_offset(2);
                proof {
                    assert(self.machine() =~= (MachineView {
                        index: address.value(),
                        ip: wrap16(m0.ip + 2),
                        ..m0
                    }));
                }
                Ok(())
            },
            
            Instruction::GetDelayTimer(x) => {
                let v = self.platform.get_delay_timer();
                self.registers.set(x, v);
                self.instruction_address = self.instruction_address.add_offset(2);
                proof {
                    assert(self.machine() =~= (MachineView {
                        regs: m0.regs.update(x.value() as int, p0.delay),
                        ip: wrap16(m0.ip + 2),
                        ..m0
                    }));
                }
                Ok(())
            },
            
            _ => {
                proof {
                    assert(false);
                }
                Ok(())
            },
        }
    }

    /// Executes the random register load, exactly as `instr_rel` states.
    #[verifier::rlimit(100)]
    fn exec_random(&mut self, instruction: Instruction) -> (r: Result<(), InterpreterError>)
        requires
            old(self).wf(),
            instruction is SetRegisterRandom,
        ensures
            final(self).wf(),
            instr_rel(
                instruction,
                old(self).machine(),
                old(self).pview(),
                final(self).machine(),
                final(self).pview(),
                r,
            ),
            r is Err ==> final(self).machine() == old(self).machine() && final(self).pview()
                == old(self).pview(),
    {
        let ghost m0 = self.machine();
        let ghost p0 = self.pview();
        match instruction {
            Instruction::SetRegisterRandom(x, mask) => {
                proof {
                    use_type_invariant(&self.registers);
                }
                let byte = self.platform.get_random_byte();
                let masked = byte & mask;
                self.registers.set(x, masked);
                self.instruction_address = self.instruction_address.add_offset(2);
                proof {
                    use_type_invariant(&x);
                    assert((byte & mask) | mask == mask) by (bit_vector);
                    let m1 = self.machine();
                    assert(m1.regs == m0.regs.update(x.value() as int, masked));
                    assert(m1.regs[x.value() as int] == masked);
                    assert(m1 =~= (MachineView { regs: m1.regs, ip: wrap16(m0.ip + 2), ..m0 }));
                    assert(self.pview() =~= p0);
                }
                Ok(())
            },
            _ => {
                proof {
                    assert(false);
                }
                Ok(())
            },
        }
    }

    /// Executes the memory block transfers and the decimal conversion,
    /// exactly as `instr_rel` states.
    #[verifier::rlimit(100)]
    fn exec_block_transfers(&mut self, instruction: Instruction) -> (r: Result<(), InterpreterError>)
        requires
            old(self).wf(),
            instruction is WriteRegistersToMem || instruction is LoadRegistersFromMem || instruction is RegisterToBCD,
        ensures
            final(self).wf(),
            instr_rel(
                instruction,
                old(self).machine(),
                old(self).pview(),
                final(self).machine(),
                final(self).pview(),
                r,
            ),
            r is Err ==> final(self).machine() == old(self).machine() && final(self).pview()
                == old(self).pview(),
    {
        let ghost m0 = self.machine();
        let ghost p0 = self.pview();
        match instruction {
            Instruction::WriteRegistersToMem(end_index) => {
                proof {
                    use_type_invariant(&end_index);
                }
                let count = end_index.as_u8();
                let mut j: u8 = 0;
                while j <= count
                    invariant
                        count <= 15,
                        count == end_index.value(),
                        j <= count + 1,
                        self.platform == old(self).platform,
                        self.registers == old(self).registers,
                        self.stack == old(self).stack,
                        self.index_register == old(self).index_register,
                        self.instruction_address == old(self).instruction_address,
                        self.expecting_key == old(self).expecting_key,
                        self.is_crashed == old(self).is_crashed,
                        m0 == old(self).machine(),
                        self.memory.contents() == write_block(
                            m0.mem,
                            m0.index as int,
                            m0.regs,
                            j - 1,
                        ),
                    decreases count + 1 - j,
                {
                    let a = self.index_register.add_offset(j as i16);
                    let v = self.registers.get(Nibble(j));
                    self.memory.write(a, v);
                    proof {
                        assert(self.memory.contents() == write_block(
                            m0.mem,
                            m0.index as int,
                            m0.regs,
                            j as int,
                        ));
                    }
                    j = j + 1;
                }
                let offset: i16 = count as i16 + 1;
                self.index_register = self.index_register.add_offset(offset);
                self.instruction_address = self.instruction_address.add_offset(2);
                proof {
                    assert(self.machine() =~= (MachineView {
                        mem: write_block(m0.mem, m0.index as int, m0.regs, count as int),
                        index: wrap16(m0.index + count + 1),
                        ip: wrap16(m0.ip + 2),
                        ..m0
                    }));
                }
                Ok(())
            },
            
            Instruction::LoadRegistersFromMem(end_index) => {
                proof {
                    use_type_invariant(&end_index);
                }
                let count = end_index.as_u8();
                let mut j: u8 = 0;
                while j <= count
                    invariant
                        count <= 15,
                        count == end_index.value(),
                        j <= count + 1,
                        self.platform == old(self).platform,
                        self.memory == old(self).memory,
                        self.stack == old(self).stack,
                        self.index_register == old(self).index_register,
                        self.instruction_address == old(self).instruction_address,
                        self.expecting_key == old(self).expecting_key,
                        self.is_crashed == old(self).is_crashed,
                        m0 == old(self).machine(),
                        self.registers.contents() == load_block(
                            m0.regs,
                            m0.mem,
                            m0.index as int,
                            j - 1,
                        ),
                    decreases count + 1 - j,
                {
                    let a = self.index_register.add_offset(j as i16);
                    let v = self.memory.read(a);
                    self.registers.set(Nibble(j), v);
                    proof {
                        assert(self.registers.contents() == load_block(
                            m0.regs,
                            m0.mem,
                            m0.index as int,
                            j as int,
                        ));
                    }
                    j = j + 1;
                }
                let offset: i16 = count as i16 + 1;
                self.index_register = self.index_register.add_offset(offset);
                self.instruction_address = self.instruction_address.add_offset(2);
                proof {
                    assert(self.machine() =~= (MachineView {
                        regs: load_block(m0.regs, m0.mem, m0.index as int, count as int),
                        index: wrap16(m0.index + count + 1),
                        ip: wrap16(m0.ip + 2),
                        ..m0
                    }));
                }
                Ok(())
            },
            
            Instruction::RegisterToBCD(x) => {
                let v = self.registers.get(x);
                let a0 = self.index_register.add_offset(0);
                let a1 = self.index_register.add_offset(1);
                let a2 = self.index_register.add_offset(2);
                self.memory.write(a0, v / 100 % 10);
                self.memory.write(a1, v / 10 % 10);
                self.memory.write(a2, v % 10);
                self.instruction_address = self.instruction_address.add_offset(2);
                proof {
                    assert(self.machine() =~= (MachineView {
                        mem: m0.mem.update(
                            wrapped_address(m0.index as int),
                            ((m0.regs[x.value() as int] as int / 100) % 10) as u8,
                        ).update(
                            wrapped_address(m0.index + 1),
                            ((m0.regs[x.value() as int] as int / 10) % 10) as u8,
                        ).update(
                            wrapped_address(m0.index + 2),
                            (m0.regs[x.value() as int] as int % 10) as u8,
                        ),
                        ip: wrap16(m0.ip + 2),
                        ..m0
                    }));
                }
                Ok(())
            },
            _ => {
                proof {
                    assert(false);
                }
                Ok(())
            },
        }
    }

    /// Executes the arithmetic, bitwise and shift operations, exactly as `instr_rel` states.
    #[verifier::rlimit(60)]
    fn exec_math(&mut self, instruction: Instruction) -> (r: Result<(), InterpreterError>)
        requires
            old(self).wf(),
            instruction is AddRegister || instruction is OrRegisters || instruction is AndRegisters || instruction is XorRegisters || instruction is AddAddressRegister || instruction is AddRegisters || instruction is SubRegisters || instruction is RShiftRegisters || instruction is SubRegisterReversed || instruction is LShiftRegisters,
        ensures
            final(self).wf(),
            instr_rel(
                instruction,
                old(self).machine(),
                old(self).pview(),
                final(self).machine(),
                final(self).pview(),
                r,
            ),
            r is Err ==> final(self).machine() == old(self).machine() && final(self).pview()
                == old(self).pview(),
    {
        let ghost m0 = self.machine();
        let ghost p0 = self.pview();
        match instruction {
            
            Instruction::AddRegister(x, value) => {
                let a = self.registers.get(x);
                let sum = a as u16 + value as u16;
                let wrapped = (sum % 256) as u8;
                self.registers.set(x, wrapped);
                self.instruction_address = self.instruction_address.add_offset(2);
                proof {
                    assert(self.machine() =~= (MachineView {
                        regs: m0.regs.update(
                            x.value() as int,
                            ((m0.regs[x.value() as int] + value) % 256) as u8,
                        ),
                        ip: wrap16(m0.ip + 2),
                        ..m0
                    }));
                }
                Ok(())
            },
            
            Instruction::OrRegisters(x, y) => {
                let a = self.registers.get(x);
                let b = self.registers.get(y);
                self.registers.set(x, a | b);
                self.registers.set(Nibble::new::<15>(), 0);
                self.instruction_address = self.instruction_address.add_offset(2);
                proof {
                    assert(self.machine() =~= (MachineView {
                        regs: m0.regs.update(
                            x.value() as int,
                            m0.regs[x.value() as int] | m0.regs[y.value() as int],
                        ).update(15, 0),
                        ip: wrap16(m0.ip + 2),
                        ..m0
                    }));
                }
                Ok(())
            },
            
            Instruction::AndRegisters(x, y) => {
                let a = self.registers.get(x);
                let b = self.registers.get(y);
                self.registers.set(x, a & b);
                self.registers.set(Nibble::new::<15>(), 0);
                self.instruction_address = self.instruction_address.add_offset(2);
                proof {
                    assert(self.machine() =~= (MachineView {
                        regs: m0.regs.update(
                            x.value() as int,
                            m0.regs[x.value() as int] & m0.regs[y.value() as int],
                        ).update(15, 0),
                        ip: wrap16(m0.ip + 2),
                        ..m0
                    }));
                }
                Ok(())
            },
            
            Instruction::XorRegisters(x, y) => {
                let a = self.registers.get(x);
                let b = self.registers.get(y);
                self.registers.set(x, a ^ b);
                self.registers.set(Nibble::new::<15>(), 0);
                self.instruction_address = self.instruction_address.add_offset(2);
                proof {
                    assert(self.machine() =~= (MachineView {
                        regs: m0.regs.update(
                            x.value() as int,
                            m0.regs[x.value() as int] ^ m0.regs[y.value() as int],
                        ).update(15, 0),
                        ip: wrap16(m0.ip + 2),
                        ..m0
                    }));
                }
                Ok(())
            },
            
            Instruction::AddAddressRegister(x) => {
                let v = self.registers.get(x);
                self.index_register = self.index_register.add_offset(v as i16);
                self.instruction_address = self.instruction_address.add_offset(2);
                proof {
                    assert(self.machine() =~= (MachineView {
                        index: wrap16(m0.index + m0.regs[x.value() as int]),
                        ip: wrap16(m0.ip + 2),
                        ..m0
                    }));
                }
                Ok(())
            },
            
            Instruction::AddRegisters(x, y) => {
                let a = self.registers.get(x);
                let b = self.registers.get(y);
                let sum = a as u16 + b as u16;
                let wrapped = (sum % 256) as u8;
                let flag: u8 = if sum > 255 {
                    1
                } else {
                    0
                };
                self.registers.set(x, wrapped);
                self.registers.set(Nibble::new::<15>(), flag);
                self.instruction_address = self.instruction_address.add_offset(2);
                proof {
                    assert(self.machine() =~= (MachineView {
                        regs: m0.regs.update(
                            x.value() as int,
                            ((m0.regs[x.value() as int] + m0.regs[y.value() as int]) % 256) as u8,
                        ).update(
                            15,
                            if m0.regs[x.value() as int] + m0.regs[y.value() as int] > 255 {
                                1u8
                            } else {
                                0u8
                            },
                        ),
                        ip: wrap16(m0.ip + 2),
                        ..m0
                    }));
                }
                Ok(())
            },
            
            Instruction::SubRegisters(x, y) => {
                let a = self.registers.get(x);
                let b = self.registers.get(y);
                let value: u8 = if a >= b {
                    a - b
                } else {
                    (a as u16 + 256 - b as u16) as u8
                };
                let flag: u8 = if a >= b {
                    1
                } else {
                    0
                };
                self.registers.set(x, value);
                self.registers.set(Nibble::new::<15>(), flag);
                self.instruction_address = self.instruction_address.add_offset(2);
                proof {
                    assert(self.machine() =~= (MachineView {
                        regs: m0.regs.update(
                            x.value() as int,
                            (if m0.regs[x.value() as int] as int >= m0.regs[y.value() as int] as int {
                                m0.regs[x.value() as int] - m0.regs[y.value() as int]
                            } else {
                                m0.regs[x.value() as int] - m0.regs[y.value() as int] + 256
                            }) as u8,
                        ).update(
                            15,
                            if m0.regs[x.value() as int] as int >= m0.regs[y.value() as int] as int {
                                1u8
                            } else {
                                0u8
                            },
                        ),
                        ip: wrap16(m0.ip + 2),
                        ..m0
                    }));
                }
                Ok(())
            },
            
            Instruction::RShiftRegisters(x, y) => {
                let v = self.registers.get(y);
                self.registers.set(x, v >> 1u8);
                self.registers.set(Nibble::new::<15>(), v & 1);
                self.instruction_address = self.instruction_address.add_offset(2);
                proof {
                    assert(self.machine() =~= (MachineView {
                        regs: m0.regs.update(
                            x.value() as int,
                            m0.regs[y.value() as int] >> 1u8,
                        ).update(15, m0.regs[y.value() as int] & 1),
                        ip: wrap16(m0.ip + 2),
                        ..m0
                    }));
                }
                Ok(())
            },
            
            Instruction::SubRegisterReversed(x, y) => {
                let a = self.registers.get(x);
                let b = self.registers.get(y);
                let value: u8 = if b >= a {
                    b - a
                } else {
                    (b as u16 + 256 - a as u16) as u8
                };
                let flag: u8 = if b >= a {
                    1
                } else {
                    0
                };
                self.registers.set(x, value);
                self.registers.set(Nibble::new::<15>(), flag);
                self.instruction_address = self.instruction_address.add_offset(2);
                proof {
                    assert(self.machine() =~= (MachineView {
                        regs: m0.regs.update(
                            x.value() as int,
                            (if m0.regs[y.value() as int] as int >= m0.regs[x.value() as int] as int {
                                m0.regs[y.value() as int] - m0.regs[x.value() as int]
                            } else {
                                m0.regs[y.value() as int] - m0.regs[x.value() as int] + 256
                            }) as u8,
                        ).update(
                            15,
                            if m0.regs[y.value() as int] as int >= m0.regs[x.value() as int] as int {
                                1u8
                            } else {
                                0u8
                            },
                        ),
                        ip: wrap16(m0.ip + 2),
                        ..m0
                    }));
                }
                Ok(())
            },
            
            Instruction::LShiftRegisters(x, y) => {
                let v = self.registers.get(y);
                self.registers.set(x, v << 1u8);
                self.registers.set(Nibble::new::<15>(), (v & 0x80) >> 7u8);
                self.instruction_address = self.instruction_address.add_offset(2);
                proof {
                    assert(self.machine() =~= (MachineView {
                        regs: m0.regs.update(
                            x.value() as int,
                            m0.regs[y.value() as int] << 1u8,
                        ).update(15, (m0.regs[y.value() as int] & 0x80) >> 7u8),
                        ip: wrap16(m0.ip + 2),
                        ..m0
                    }));
                }
                Ok(())
            },
            _ => {
                proof {
                    assert(false);
                }
                Ok(())
            },
        }
    }

    /// Executes the screen instructions, exactly as `instr_rel` states.
    #[verifier::rlimit(60)]
    fn exec_screen(&mut self, instruction: Instruction) -> (r: Result<(), InterpreterError>)
        requires
            old(self).wf(),
            instruction is ClearScreen || instruction is DrawSprite,
        ensures
            final(self).wf(),
            instr_rel(
                instruction,
                old(self).machine(),
                old(self).pview(),
                final(self).machine(),
                final(self).pview(),
                r,
            ),
            r is Err ==> final(self).machine() == old(self).machine() && final(self).pview()
                == old(self).pview(),
    {
        let ghost m0 = self.machine();
        let ghost p0 = self.pview();
        match instruction {
            
            Instruction::ClearScreen => {
                self.platform.clear_screen();
                self.instruction_address = self.instruction_address.add_offset(2);
                proof {
                    assert(self.machine() =~= (MachineView { ip: wrap16(m0.ip + 2), ..m0 }));
                    assert(self.pview() =~= (PlatView { screen: blank_screen(), ..p0 }));
                }
                Ok(())
            },
            
            Instruction::DrawSprite(x, y, rows_count) => {
                proof {
                    use_type_invariant(&rows_count);
                }
                let count = rows_count.as_u8();
                let mut rows_vec: Vec<u8> = Vec::new();
                let mut j: u8 = 0;
                while j < count
                    invariant
                        count <= 15,
                        count == rows_count.value(),
                        j <= count,
                        self.platform == old(self).platform,
                        self.memory == old(self).memory,
                        self.registers == old(self).registers,
                        self.stack == old(self).stack,
                        self.index_register == old(self).index_register,
                        self.instruction_address == old(self).instruction_address,
                        self.expecting_key == old(self).expecting_key,
                        self.is_crashed == old(self).is_crashed,
                        m0 == old(self).machine(),
                        rows_vec@ == sprite_rows_at(m0.mem, m0.index as int, j as int),
                    decreases count - j,
                {
                    let a = self.index_register.add_offset(j as i16);
                    let v = self.memory.read(a);
                    rows_vec.push(v);
                    proof {
                        assert(rows_vec@ =~= sprite_rows_at(m0.mem, m0.index as int, j + 1));
                    }
                    j = j + 1;
                }
                let x_val = self.registers.get(x);
                let y_val = self.registers.get(y);
                let pos = Point { x: x_val % 64, y: y_val % 32 };
                let sprite = Sprite::new(rows_vec);
                let ghost rows = sprite.rows();
                let collided = self.platform.draw_sprite(pos, sprite);
                let flag: u8 = if collided {
                    1
                } else {
                    0
                };
                self.registers.set(Nibble::new::<15>(), flag);
                self.instruction_address = self.instruction_address.add_offset(2);
                proof {
                    let px = (m0.regs[x.value() as int] % 64) as int;
                    let py = (m0.regs[y.value() as int] % 32) as int;
                    assert(rows == sprite_rows_at(m0.mem, m0.index as int, rows_count.value() as int));
                    assert(self.machine() =~= (MachineView {
                        regs: m0.regs.update(
                            15,
                            if draw_collides(p0.screen, px, py, rows) {
                                1u8
                            } else {
                                0u8
                            },
                        ),
                        ip: wrap16(m0.ip + 2),
                        ..m0
                    }));
                    assert(self.pview() =~= (PlatView {
                        screen: draw_on_screen(p0.screen, px, py, rows),
                        ..p0
                    }));
                }
                Ok(())
            },
            _ => {
                proof {
                    assert(false);
                }
                Ok(())
            },
        }
    }

    /// Executes the timer writes and the key wait, exactly as `instr_rel` states.
    #[verifier::rlimit(60)]
    fn exec_timers_keys(&mut self, instruction: Instruction) -> (r: Result<(), InterpreterError>)
        requires
            old(self).wf(),
            instruction is SetDelayTimer || instruction is SetSoundTimer || instruction is WaitForKeyDown,
        ensures
            final(self).wf(),
            instr_rel(
                instruction,
                old(self).machine(),
                old(self).pview(),
                final(self).machine(),
                final(self).pview(),
                r,
            ),
            r is Err ==> final(self).machine() == old(self).machine() && final(self).pview()
                == old(self).pview(),
    {
        let ghost m0 = self.machine();
        let ghost p0 = self.pview();
        match instruction {
            
            Instruction::SetDelayTimer(x) => {
                let v = self.registers.get(x);
                self.platform.set_delay_timer(v);
                self.instruction_address = self.instruction_address.add_offset(2);
                proof {
                    assert(self.machine() =~= (MachineView { ip: wrap16(m0.ip + 2), ..m0 }));
                    assert(self.pview() =~= (PlatView {
                        delay: m0.regs[x.value() as int],
                        ..p0
                    }));
                }
                Ok(())
            },
            
            Instruction::SetSoundTimer(x) => {
                let v = self.registers.get(x);
                self.platform.set_sound_timer(v);
                self.instruction_address = self.instruction_address.add_offset(2);
                proof {
                    assert(self.machine() =~= (MachineView { ip: wrap16(m0.ip + 2), ..m0 }));
                    assert(self.pview() =~= (PlatView {
                        sound: m0.regs[x.value() as int],
                        ..p0
                    }));
                }
                Ok(())
            },
            
            Instruction::WaitForKeyDown(x) => {
                self.expecting_key = Some(x);
                let _ = self.platform.get_last_pressed_key();
                self.instruction_address = self.instruction_address.add_offset(2);
                proof {
                    assert(self.machine() =~= (MachineView {
                        expecting: Some(x.value()),
                        ip: wrap16(m0.ip + 2),
                        ..m0
                    }));
                    assert(self.pview() =~= (PlatView { pending: None, ..p0 }));
                }
                Ok(())
            },
            _ => {
                proof {
                    assert(false);
                }
                Ok(())
            },
        }
    }

    /// Executes the control transfers, exactly as `instr_rel` states.
    #[verifier::rlimit(60)]
    fn exec_control(&mut self, instruction: Instruction) -> (r: Result<(), InterpreterError>)
        requires
            old(self).wf(),
            instruction is Jump || instruction is Call || instruction is Return || instruction is JumpV0,
        ensures
            final(self).wf(),
            instr_rel(
                instruction,
                old(self).machine(),
                old(self).pview(),
                final(self).machine(),
                final(self).pview(),
                r,
            ),
            r is Err ==> final(self).machine() == old(self).machine() && final(self).pview()
                == old(self).pview(),
    {
        let ghost m0 = self.machine();
        let ghost p0 = self.pview();
        match instruction {
            
            Instruction::Jump(address) => {
                self.instruction_address = address;
                proof {
                    assert(self.machine() =~= (MachineView { ip: address.value(), ..m0 }));
                }
                Ok(())
            },
            
            Instruction::Call(address) => {
                let ret = self.instruction_address.add_offset(2);
                match self.stack.push(ret) {
                    Err(e) => {
                        proof {
                            assert(self.machine() =~= m0);
                        }
                        Err(e)
                    },
                    Ok(()) => {
                        self.instruction_address = address;
                        proof {
                            assert(self.machine() =~= (MachineView {
                                stack: m0.stack.push(wrap16(m0.ip + 2)),
                                ip: address.value(),
                                ..m0
                            }));
                        }
                        Ok(())
                    },
                }
            },
            
            Instruction::Return => {
                match self.stack.pop() {
                    Err(e) => {
                        proof {
                            assert(self.machine() =~= m0);
                        }
                        Err(e)
                    },
                    Ok(a) => {
                        self.instruction_address = a;
                        proof {
                            assert(self.machine() =~= (MachineView {
                                ip: m0.stack.last(),
                                stack: m0.stack.drop_last(),
                                ..m0
                            }));
                        }
                        Ok(())
                    },
                }
            },
            
            Instruction::JumpV0(address) => {
                let r0 = self.registers.get(Nibble::new::<0>());
                self.instruction_address = address.add_offset(r0 as i16);
                proof {
                    assert(self.machine() =~= (MachineView {
                        ip: wrap16(address.value() + m0.regs[0]),
                        ..m0
                    }));
                }
                Ok(())
            },
            _ => {
                proof {
                    assert(false);
                }
                Ok(())
            },
        }
    }
}

} // verus!
