use vstd::prelude::*;
use crate::display::{blank_frame, collides, draw_sprite, frame_binary, frame_shaped, FONT_SET};
use crate::error::CpuError;

verus! {

/// Bytes of addressable memory.
pub const MEMORY_SIZE: usize = 4096;

/// Address at which a program is loaded and execution starts.
pub const PROGRAM_START: usize = 0x200;

/// Largest program that fits between `PROGRAM_START` and the end of memory.
pub const MAX_ROM_SIZE: usize = 0xE00;

/// Number of general registers `v[0]..v[15]`.
pub const REGISTER_COUNT: usize = 16;

/// Register that receives the carry, borrow and collision flags.
pub const FLAG: usize = 15;

/// Capacity of the return-address stack.
pub const STACK_SIZE: usize = 16;

/// The machine as a mathematical value.
pub struct CpuState {
    pub opcode: u8,
    pub memory: Seq<u8>,
    pub v: Seq<u8>,
    pub i: u16,
    pub pc: u16,
    pub sp: u16,
    pub stack: Seq<u16>,
    pub delay_timer: u8,
    pub sound_timer: u8,
    pub wait_key: bool,
    pub gfx: Seq<Seq<u8>>,
}

impl CpuState {
    /// Memory, registers, stack and framebuffer have their fixed sizes.
    pub open spec fn shaped(self) -> bool {
        &&& self.memory.len() == MEMORY_SIZE
        &&& self.v.len() == REGISTER_COUNT
        &&& self.stack.len() == STACK_SIZE
        &&& frame_shaped(self.gfx)
    }

    /// The invariant kept by every cycle: the stack pointer within the stack, and
    /// every pixel lit or unlit.
    pub open spec fn wf(self) -> bool {
        &&& self.shaped()
        &&& self.sp <= STACK_SIZE
        &&& frame_binary(self.gfx)
    }
}

/// The big-endian instruction word at address `a`.
pub open spec fn word_at(memory: Seq<u8>, a: int) -> u16 {
    (memory[a] * 256 + memory[a + 1]) as u16
}

/// Bits 12-15: the instruction family.
pub open spec fn family(w: u16) -> int {
    w as int / 0x1000
}

/// Bits 8-11.
pub open spec fn field_x(w: u16) -> int {
    (w as int / 0x100) % 0x10
}

/// Bits 4-7.
pub open spec fn field_y(w: u16) -> int {
    (w as int / 0x10) % 0x10
}

/// Bits 0-3.
pub open spec fn field_n(w: u16) -> int {
    w as int % 0x10
}

/// Bits 0-7.
pub open spec fn field_nn(w: u16) -> int {
    w as int % 0x100
}

/// Bits 0-11.
pub open spec fn field_nnn(w: u16) -> int {
    w as int % 0x1000
}

/// Move on to the next instruction, or past it when `skip` holds.
pub open spec fn next(s: CpuState, skip: bool) -> CpuState {
    CpuState { pc: (s.pc + if skip { 4int } else { 2int }) as u16, ..s }
}

/// Move on to the next instruction.
pub open spec fn advance(s: CpuState) -> CpuState {
    next(s, false)
}

/// Register `x` set to `val`.
pub open spec fn with_reg(s: CpuState, x: int, val: u8) -> CpuState {
    CpuState { v: s.v.update(x, val), ..s }
}

/// The flag register set to `flag`, then register `x` to `val`: where `x` is the
/// flag register, the result wins.
pub open spec fn with_flag_and_reg(s: CpuState, flag: u8, x: int, val: u8) -> CpuState {
    CpuState { v: s.v.update(FLAG as int, flag).update(x, val), ..s }
}

/// Both timers counted down by one, neither below zero.
pub open spec fn tick(s: CpuState) -> CpuState {
    CpuState {
        delay_timer: if s.delay_timer > 0 { (s.delay_timer - 1) as u8 } else { 0 },
        sound_timer: if s.sound_timer > 0 { (s.sound_timer - 1) as u8 } else { 0 },
        ..s
    }
}

/// `00E0` clears the screen; `00EE` returns from a subroutine.
pub open spec fn sem_0(s: CpuState, w: u16) -> Result<CpuState, CpuError> {
    if field_nnn(w) == 0x0E0 {
        Ok(advance(CpuState { gfx: blank_frame(), ..s }))
    } else if field_nnn(w) == 0x0EE {
        if s.sp == 0 {
            Err(CpuError::StackUnderflow)
        } else if s.sp > STACK_SIZE {
            Err(CpuError::AddressOutOfRange)
        } else {
            Ok(CpuState { sp: (s.sp - 1) as u16, pc: s.stack[s.sp - 1], ..s })
        }
    } else {
        Err(CpuError::IllegalInstruction)
    }
}

/// `1nnn` jumps to `nnn`.
pub open spec fn sem_1(s: CpuState, w: u16) -> Result<CpuState, CpuError> {
    Ok(CpuState { pc: field_nnn(w) as u16, ..s })
}

/// `2nnn` pushes the address of the next instruction and jumps to `nnn`.
pub open spec fn sem_2(s: CpuState, w: u16) -> Result<CpuState, CpuError> {
    if s.sp >= STACK_SIZE {
        Err(CpuError::StackOverflow)
    } else {
        Ok(
            CpuState {
                stack: s.stack.update(s.sp as int, (s.pc + 2) as u16),
                sp: (s.sp + 1) as u16,
                pc: field_nnn(w) as u16,
                ..s
            },
        )
    }
}

/// `3xnn` skips the next instruction when `v[x] == nn`.
pub open spec fn sem_3(s: CpuState, w: u16) -> Result<CpuState, CpuError> {
    Ok(next(s, s.v[field_x(w)] == field_nn(w)))
}

/// `4xnn` skips the next instruction when `v[x] != nn`.
pub open spec fn sem_4(s: CpuState, w: u16) -> Result<CpuState, CpuError> {
    Ok(next(s, s.v[field_x(w)] != field_nn(w)))
}

/// `5xy0` skips the next instruction when `v[x] == v[y]`.
pub open spec fn sem_5(s: CpuState, w: u16) -> Result<CpuState, CpuError> {
    if field_n(w) != 0 {
        Err(CpuError::IllegalInstruction)
    } else {
        Ok(next(s, s.v[field_x(w)] == s.v[field_y(w)]))
    }
}

/// `6xnn` sets `v[x]` to `nn`.
pub open spec fn sem_6(s: CpuState, w: u16) -> Result<CpuState, CpuError> {
    Ok(advance(with_reg(s, field_x(w), field_nn(w) as u8)))
}

/// `7xnn` adds `nn` to `v[x]`, wrapping, without touching the flag.
pub open spec fn sem_7(s: CpuState, w: u16) -> Result<CpuState, CpuError> {
    Ok(advance(with_reg(s, field_x(w), ((s.v[field_x(w)] + field_nn(w)) % 256) as u8)))
}

/// `8xyN`: copy, bitwise operations, and arithmetic with a flag, on `v[x]` and `v[y]`.
pub open spec fn sem_8(s: CpuState, w: u16) -> Result<CpuState, CpuError> {
    let x = field_x(w);
    let a = s.v[x];
    let b = s.v[field_y(w)];
    let n = field_n(w);
    if n == 0 {
        Ok(advance(with_reg(s, x, b)))
    } else if n == 1 {
        Ok(advance(with_reg(s, x, a | b)))
    } else if n == 2 {
        Ok(advance(with_reg(s, x, a & b)))
    } else if n == 3 {
        Ok(advance(with_reg(s, x, a ^ b)))
    } else if n == 4 {
        let carry: u8 = if a + b > 255 { 1 } else { 0 };
        Ok(advance(with_flag_and_reg(s, carry, x, ((a + b) % 256) as u8)))
    } else if n == 5 {
        let no_borrow: u8 = if a >= b { 1 } else { 0 };
        Ok(advance(with_flag_and_reg(s, no_borrow, x, ((a - b) % 256) as u8)))
    } else if n == 6 {
        Ok(advance(with_flag_and_reg(s, (a % 2) as u8, x, (a / 2) as u8)))
    } else if n == 7 {
        let no_borrow: u8 = if b >= a { 1 } else { 0 };
        Ok(advance(with_flag_and_reg(s, no_borrow, x, ((b - a) % 256) as u8)))
    } else if n == 0xE {
        Ok(advance(with_flag_and_reg(s, (a / 128) as u8, x, ((a * 2) % 256) as u8)))
    } else {
        Err(CpuError::IllegalInstruction)
    }
}

/// `9xy0` skips the next instruction when `v[x] != v[y]`.
pub open spec fn sem_9(s: CpuState, w: u16) -> Result<CpuState, CpuError> {
    if field_n(w) != 0 {
        Err(CpuError::IllegalInstruction)
    } else {
        Ok(next(s, s.v[field_x(w)] != s.v[field_y(w)]))
    }
}

/// `Annn` sets the index register to `nnn`.
pub open spec fn sem_a(s: CpuState, w: u16) -> Result<CpuState, CpuError> {
    Ok(advance(CpuState { i: field_nnn(w) as u16, ..s }))
}

/// `Bnnn` jumps to `v[0] + nnn`.
pub open spec fn sem_b(s: CpuState, w: u16) -> Result<CpuState, CpuError> {
    Ok(CpuState { pc: (s.v[0] + field_nnn(w)) as u16, ..s })
}

/// `Cxnn` sets `v[x]` to the random byte `rnd` masked with `nn`.
pub open spec fn sem_c(s: CpuState, w: u16, rnd: u8) -> Result<CpuState, CpuError> {
    Ok(advance(with_reg(s, field_x(w), rnd & (field_nn(w) as u8))))
}

/// The `n` sprite rows that `Dxyn` reads, from the index register on.
pub open spec fn sprite_of(s: CpuState, n: int) -> Seq<u8> {
    s.memory.subrange(s.i as int, s.i + n)
}

/// `Dxyn` XORs the `n`-row sprite at `memory[i]` onto the screen at `(v[x], v[y])`
/// and sets the flag exactly when a lit pixel was turned off.
pub open spec fn sem_d(s: CpuState, w: u16) -> Result<CpuState, CpuError> {
    let n = field_n(w);
    if s.i + n > MEMORY_SIZE {
        Err(CpuError::AddressOutOfRange)
    } else {
        let sprite = sprite_of(s, n);
        let vx = s.v[field_x(w)] as int;
        let vy = s.v[field_y(w)] as int;
        let flag: u8 = if collides(s.gfx, sprite, vx, vy) { 1 } else { 0 };
        Ok(
            advance(
                CpuState {
                    gfx: draw_sprite(s.gfx, sprite, vx, vy),
                    v: s.v.update(FLAG as int, flag),
                    ..s
                },
            ),
        )
    }
}

/// `Ex9E` and `ExA1` skip the next instruction when the key pressed is, or is not,
/// `v[x]`.
pub open spec fn sem_e(s: CpuState, w: u16, key: u8) -> Result<CpuState, CpuError> {
    if field_nn(w) == 0x9E {
        Ok(next(s, s.v[field_x(w)] == key))
    } else if field_nn(w) == 0xA1 {
        Ok(next(s, s.v[field_x(w)] != key))
    } else {
        Err(CpuError::IllegalInstruction)
    }
}

/// `Fx33` stores the hundreds, tens and units of `v[x]` at `memory[i..i+3]`.
pub open spec fn store_bcd(s: CpuState, val: u8) -> Seq<u8> {
    s.memory.update(s.i as int, (val / 100) as u8).update(s.i + 1, ((val % 100) / 10) as u8).update(
        s.i + 2,
        (val % 10) as u8,
    )
}

/// `Fx55` stores `v[0..=x]` at `memory[i..=i+x]`.
pub open spec fn store_registers(s: CpuState, x: int) -> Seq<u8> {
    Seq::new(
        s.memory.len(),
        |a: int|
            if s.i <= a <= s.i + x {
                s.v[a - s.i]
            } else {
                s.memory[a]
            },
    )
}

/// `Fx65` loads `v[0..=x]` from `memory[i..=i+x]`.
pub open spec fn load_registers(s: CpuState, x: int) -> Seq<u8> {
    Seq::new(
        s.v.len(),
        |r: int|
            if r <= x {
                s.memory[s.i + r]
            } else {
                s.v[r]
            },
    )
}

/// `Fxnn`: timers, the key wait, the index register, and memory transfers, told apart
/// by the low byte.
pub open spec fn sem_f(s: CpuState, w: u16, key: u8) -> Result<CpuState, CpuError> {
    let x = field_x(w);
    let nn = field_nn(w);
    if nn == 0x07 {
        Ok(advance(with_reg(s, x, s.delay_timer)))
    } else if nn == 0x0A {
        if key != 0 {
            Ok(advance(with_reg(s, x, key)))
        } else {
            Ok(CpuState { wait_key: true, ..s })
        }
    } else if nn == 0x15 {
        Ok(advance(CpuState { delay_timer: s.v[x], ..s }))
    } else if nn == 0x18 {
        Ok(advance(CpuState { sound_timer: s.v[x], ..s }))
    } else if nn == 0x1E {
        Ok(advance(CpuState { i: ((s.i + s.v[x]) % 0x10000) as u16, ..s }))
    } else if nn == 0x29 {
        Ok(advance(CpuState { i: (s.v[x] * 5) as u16, ..s }))
    } else if nn == 0x33 {
        if s.i + 2 >= MEMORY_SIZE {
            Err(CpuError::AddressOutOfRange)
        } else {
            Ok(advance(CpuState { memory: store_bcd(s, s.v[x]), ..s }))
        }
    } else if nn == 0x55 {
        if s.i + x >= MEMORY_SIZE {
            Err(CpuError::AddressOutOfRange)
        } else {
            Ok(advance(CpuState { memory: store_registers(s, x), ..s }))
        }
    } else if nn == 0x65 {
        if s.i + x >= MEMORY_SIZE {
            Err(CpuError::AddressOutOfRange)
        } else {
            Ok(advance(CpuState { v: load_registers(s, x), ..s }))
        }
    } else {
        Err(CpuError::IllegalInstruction)
    }
}

/// The effect of instruction `w` on `s`, with `key` the key pressed and `rnd` the
/// byte that `Cxnn` draws.
pub open spec fn execute(s: CpuState, w: u16, key: u8, rnd: u8) -> Result<CpuState, CpuError> {
    let f = family(w);
    if f == 0x0 {
        sem_0(s, w)
    } else if f == 0x1 {
        sem_1(s, w)
    } else if f == 0x2 {
        sem_2(s, w)
    } else if f == 0x3 {
        sem_3(s, w)
    } else if f == 0x4 {
        sem_4(s, w)
    } else if f == 0x5 {
        sem_5(s, w)
    } else if f == 0x6 {
        sem_6(s, w)
    } else if f == 0x7 {
        sem_7(s, w)
    } else if f == 0x8 {
        sem_8(s, w)
    } else if f == 0x9 {
        sem_9(s, w)
    } else if f == 0xA {
        sem_a(s, w)
    } else if f == 0xB {
        sem_b(s, w)
    } else if f == 0xC {
        sem_c(s, w, rnd)
    } else if f == 0xD {
        sem_d(s, w)
    } else if f == 0xE {
        sem_e(s, w, key)
    } else {
        sem_f(s, w, key)
    }
}

/// One instruction, with the timers left alone. The word at `pc` is fetched (an error
/// if `pc` is the last byte of memory or beyond). While waiting for a key, an
/// instruction without one changes nothing, and one with a key stores it in the register
/// named by the pending `Fx0A` and moves on. Otherwise the word is executed.
pub open spec fn instruction(s: CpuState, key: u8, rnd: u8) -> Result<CpuState, CpuError> {
    if s.pc + 1 >= MEMORY_SIZE {
        Err(CpuError::AddressOutOfRange)
    } else {
        let w = word_at(s.memory, s.pc as int);
        if s.wait_key {
            if key == 0 {
                Ok(s)
            } else {
                Ok(CpuState { wait_key: false, ..advance(with_reg(s, field_x(w), key)) })
            }
        } else {
            execute(s, w, key, rnd)
        }
    }
}

/// One cycle: while waiting for a key, the instruction alone; otherwise the timers count
/// down first. A cycle that fails changes nothing, timers included.
pub open spec fn cycle(s: CpuState, key: u8, rnd: u8) -> Result<CpuState, CpuError> {
    if s.wait_key {
        instruction(s, key, rnd)
    } else {
        instruction(tick(s), key, rnd)
    }
}

/// `s` with the word `w` written at `pc`.
pub open spec fn with_word_at_pc(s: CpuState, w: u16) -> CpuState {
    CpuState {
        memory: s.memory.update(s.pc as int, (w / 256) as u8).update(s.pc + 1, (w % 256) as u8),
        ..s
    }
}

/// The machine as loaded: font at address 0, `rom` at `PROGRAM_START`, everything else
/// zero, execution at `PROGRAM_START`.
pub open spec fn boot_state(rom: Seq<u8>) -> CpuState {
    CpuState {
        opcode: 0,
        memory: Seq::new(
            MEMORY_SIZE as nat,
            |a: int|
                if a < FONT_SET@.len() {
                    FONT_SET@[a]
                } else if PROGRAM_START <= a < PROGRAM_START + rom.len() {
                    rom[a - PROGRAM_START]
                } else {
                    0u8
                },
        ),
        v: Seq::new(REGISTER_COUNT as nat, |r: int| 0u8),
        i: 0,
        pc: PROGRAM_START as u16,
        sp: 0,
        stack: Seq::new(STACK_SIZE as nat, |k: int| 0u16),
        delay_timer: 0,
        sound_timer: 0,
        wait_key: false,
        gfx: blank_frame(),
    }
}

/// How many words a listing from `pc` looks at: up to the end of memory, and no more
/// than a full-size program holds.
pub open spec fn listing_len(pc: int) -> int {
    let fit = if pc < MEMORY_SIZE { (MEMORY_SIZE - pc) / 2 } else { 0 };
    if fit < MAX_ROM_SIZE / 2 {
        fit
    } else {
        MAX_ROM_SIZE as int / 2
    }
}

/// An operation that was to take `pre` to `expected` left `post` and returned `r`:
/// on success the expected state, on failure the same error and `pre` untouched.
pub open spec fn applied(
    pre: CpuState,
    post: CpuState,
    r: Result<(), CpuError>,
    expected: Result<CpuState, CpuError>,
) -> bool {
    match expected {
        Ok(t) => r is Ok && post == t,
        Err(e) => r == Err::<(), CpuError>(e) && post == pre,
    }
}

} // verus!
