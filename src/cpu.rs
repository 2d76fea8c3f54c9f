use vstd::prelude::*;
use crate::display::{
    blank_frame, collides_before, drawn_before, hits, lemma_wrap, sprite_pixel, stamp_glyph,
    stamped_before, toggled, FONT_SET, GLYPH_ROWS, HEIGHT, WIDTH,
};
use crate::error::CpuError;
use crate::laws::{lemma_cycle_keeps_wf, lemma_instruction_keeps_wf};
use crate::semantics::{
    applied, boot_state, cycle, execute, instruction, field_n, field_nn, field_nnn, field_x, field_y,
    listing_len, load_registers, next, sem_0, sem_1, sem_2, sem_3, sem_4, sem_5, sem_6, sem_7,
    sem_8, sem_9, sem_a, sem_b, sem_c, sem_d, sem_e, sem_f, sprite_of, store_registers, tick,
    with_word_at_pc, word_at, CpuState, FLAG, MAX_ROM_SIZE, MEMORY_SIZE, PROGRAM_START,
    REGISTER_COUNT, STACK_SIZE,
};

verus! {

/// The machine: memory, registers, call stack, timers and framebuffer.
#[derive(Clone, Copy, Debug)]
pub struct Cpu {
    /// Kept for callers that read it; always 0.
    pub opcode: u8,
    /// Font at 0x000-0x04F, program from 0x200 on.
    pub memory: [u8; MEMORY_SIZE],
    /// General registers; `v[FLAG]` receives carries, borrows and collisions.
    pub v: [u8; REGISTER_COUNT],
    /// Index register, used to address memory.
    pub i: u16,
    /// Address of the next instruction.
    pub pc: u16,
    /// Number of return addresses on the stack.
    pub sp: u16,
    pub stack: [u16; STACK_SIZE],
    pub delay_timer: u8,
    pub sound_timer: u8,
    /// Set while an `Fx0A` waits for a key.
    pub wait_key: bool,
    /// Pixels by row, then column: 1 lit, 0 unlit.
    pub gfx: [[u8; WIDTH]; HEIGHT],
}

impl View for Cpu {
    type V = CpuState;

    open spec fn view(&self) -> CpuState {
        CpuState {
            opcode: self.opcode,
            memory: self.memory@,
            v: self.v@,
            i: self.i,
            pc: self.pc,
            sp: self.sp,
            stack: self.stack@,
            delay_timer: self.delay_timer,
            sound_timer: self.sound_timer,
            wait_key: self.wait_key,
            gfx: self.gfx@.map_values(|row: [u8; WIDTH]| row@),
        }
    }
}

/// The shifts and masks that pick the fields out of a word, as divisions and remainders.
proof fn lemma_fields(w: u16)
    ensures
        w >> 12u16 == w / 0x1000,
        (w >> 8u16) & 0xF == (w / 0x100) % 0x10,
        (w >> 4u16) & 0xF == (w / 0x10) % 0x10,
        w & 0xF == w % 0x10,
        w & 0xFF == w % 0x100,
        w & 0xFFF == w % 0x1000,
{
    assert(w >> 12u16 == w / 0x1000) by (bit_vector);
    assert((w >> 8u16) & 0xF == (w / 0x100) % 0x10) by (bit_vector);
    assert((w >> 4u16) & 0xF == (w / 0x10) % 0x10) by (bit_vector);
    assert(w & 0xF == w % 0x10) by (bit_vector);
    assert(w & 0xFF == w % 0x100) by (bit_vector);
    assert(w & 0xFFF == w % 0x1000) by (bit_vector);
}

/// Register named by bits 8-11.
fn reg_x(opcode: u16) -> (x: usize)
    ensures
        x == field_x(opcode),
        x < REGISTER_COUNT,
{
    proof {
        lemma_fields(opcode);
    }
    ((opcode >> 8) & 0xF) as usize
}

/// Register named by bits 4-7.
fn reg_y(opcode: u16) -> (y: usize)
    ensures
        y == field_y(opcode),
        y < REGISTER_COUNT,
{
    proof {
        lemma_fields(opcode);
    }
    ((opcode >> 4) & 0xF) as usize
}

/// Bits 0-3.
fn low_n(opcode: u16) -> (n: usize)
    ensures
        n == field_n(opcode),
        n < 16,
{
    proof {
        lemma_fields(opcode);
    }
    (opcode & 0xF) as usize
}

/// Bits 0-7.
fn low_nn(opcode: u16) -> (nn: u8)
    ensures
        nn == field_nn(opcode),
{
    proof {
        lemma_fields(opcode);
    }
    (opcode & 0xFF) as u8
}

/// Bits 0-11.
fn low_nnn(opcode: u16) -> (nnn: u16)
    ensures
        nnn == field_nnn(opcode),
        nnn < 0x1000,
{
    proof {
        lemma_fields(opcode);
    }
    opcode & 0xFFF
}

/// Relies on `rand::random::<u8>`, a byte from the thread-local generator. Nothing is
/// known of its value.
#[verifier::external_body]
fn random_byte() -> (r: u8) {
    rand::random::<u8>()
}

impl Cpu {
    /// A machine with the font loaded, `c` copied to `PROGRAM_START`, and everything else
    /// zero; `RomTooLarge` when `c` does not fit below the end of memory.
    pub fn initialize(c: &Vec<u8>) -> (r: Result<Cpu, CpuError>)
        ensures
            match r {
                Ok(cpu) => c@.len() <= MAX_ROM_SIZE && cpu@ == boot_state(c@) && cpu@.wf(),
                Err(e) => c@.len() > MAX_ROM_SIZE && e == CpuError::RomTooLarge,
            },
    {
        if c.len() > MAX_ROM_SIZE {
            return Err(CpuError::RomTooLarge);
        }
        let mut memory = [0u8; MEMORY_SIZE];
        let mut k: usize = 0;
        while k < FONT_SET.len()
            invariant
                k <= FONT_SET@.len(),
                memory@ =~= Seq::new(
                    MEMORY_SIZE as nat,
                    |a: int|
                        if a < k {
                            FONT_SET@[a]
                        } else {
                            0u8
                        },
                ),
            decreases FONT_SET.len() - k,
        {
            memory[k] = FONT_SET[k];
            k += 1;
        }
        let mut k: usize = 0;
        while k < c.len()
            invariant
                k <= c@.len() <= MAX_ROM_SIZE,
                memory@ =~= Seq::new(
                    MEMORY_SIZE as nat,
                    |a: int|
                        if a < FONT_SET@.len() {
                            FONT_SET@[a]
                        } else if PROGRAM_START <= a < PROGRAM_START + k {
                            c@[a - PROGRAM_START]
                        } else {
                            0u8
                        },
                ),
            decreases c.len() - k,
        {
            memory[PROGRAM_START + k] = c[k];
            k += 1;
        }
        let cpu = Cpu {
            opcode: 0,
            memory,
            v: [0u8; REGISTER_COUNT],
            i: 0,
            pc: PROGRAM_START as u16,
            sp: 0,
            stack: [0u16; STACK_SIZE],
            delay_timer: 0,
            sound_timer: 0,
            wait_key: false,
            gfx: [[0u8; WIDTH]; HEIGHT],
        };
        assert(cpu@.memory =~= boot_state(c@).memory);
        assert(cpu@.v =~= boot_state(c@).v);
        assert(cpu@.stack =~= boot_state(c@).stack);
        assert(cpu@.gfx =~~= boot_state(c@).gfx);
        Ok(cpu)
    }

    /// Lights the pixels of font glyph `digit` with its top-left corner at
    /// `(offset_x, offset_y)`; pixels under clear glyph bits keep their value.
    pub fn print_digit(&mut self, digit: u8, offset_x: u8, offset_y: u8)
        requires
            digit < 16,
            offset_x + 8 <= WIDTH,
            offset_y + GLYPH_ROWS <= HEIGHT,
        ensures
            final(self)@ == (CpuState {
                gfx: stamp_glyph(old(self)@.gfx, digit as int, offset_x as int, offset_y as int),
                ..old(self)@
            }),
            old(self)@.wf() ==> final(self)@.wf(),
    {
        let ghost pre = self@;
        let ox = offset_x as usize;
        let oy = offset_y as usize;
        let first = digit as usize * GLYPH_ROWS;
        assert(pre.gfx =~~= stamped_before(pre.gfx, digit as int, ox as int, oy as int, 0, 0));
        let mut r: usize = 0;
        while r < GLYPH_ROWS
            invariant
                r <= GLYPH_ROWS,
                digit < 16,
                first == digit * GLYPH_ROWS,
                ox + 8 <= WIDTH,
                oy + GLYPH_ROWS <= HEIGHT,
                pre.shaped(),
                self@ == (CpuState {
                    gfx: stamped_before(pre.gfx, digit as int, ox as int, oy as int, r as int, 0),
                    ..pre
                }),
            decreases GLYPH_ROWS - r,
        {
            let glyph_row = FONT_SET[first + r];
            let mut b: usize = 0;
            while b < 8
                invariant
                    r < GLYPH_ROWS,
                    b <= 8,
                    digit < 16,
                    first == digit * GLYPH_ROWS,
                    glyph_row == FONT_SET@[first + r],
                    ox + 8 <= WIDTH,
                    oy + GLYPH_ROWS <= HEIGHT,
                    pre.shaped(),
                    self@ == (CpuState {
                        gfx: stamped_before(
                            pre.gfx,
                            digit as int,
                            ox as int,
                            oy as int,
                            r as int,
                            b as int,
                        ),
                        ..pre
                    }),
                decreases 8 - b,
            {
                let ghost before = self@.gfx;
                let ghost expected = if sprite_pixel(glyph_row, b as int) {
                    before.update(
                        (oy + r) as int,
                        before[(oy + r) as int].update((ox + b) as int, 1u8),
                    )
                } else {
                    before
                };
                if (glyph_row >> (7 - b as u8)) & 1 == 1 {
                    self.gfx[oy + r][ox + b] = 1;
                    assert(self@.gfx =~~= expected);
                }
                assert(self@.gfx =~~= expected);
                proof {
                    let next = stamped_before(
                        pre.gfx,
                        digit as int,
                        ox as int,
                        oy as int,
                        r as int,
                        b + 1,
                    );
                    assert forall|row: int, col: int|
                        0 <= row < HEIGHT && 0 <= col < WIDTH implies expected[row][col]
                        == next[row][col] by {}
                    assert forall|row: int| 0 <= row < HEIGHT implies expected[row] =~= next[row] by {}
                    assert(expected =~= next);
                }
                b += 1;
            }
            r += 1;
            assert(self@.gfx =~~= stamped_before(
                pre.gfx,
                digit as int,
                ox as int,
                oy as int,
                r as int,
                0,
            ));
        }
    }

    /// The instruction words from `pc` on, up to the first zero word: at most
    /// `listing_len(pc)` of them.
    pub fn program_words(&self) -> (words: Vec<u16>)
        ensures
            words@.len() <= listing_len(self.pc as int),
            forall|k: int|
                0 <= k < words@.len() ==> words@[k] == word_at(self@.memory, self.pc + 2 * k)
                    && words@[k] != 0,
            words@.len() < listing_len(self.pc as int) ==> word_at(
                self@.memory,
                self.pc + 2 * words@.len(),
            ) == 0,
    {
        let pc = self.pc as usize;
        let limit: usize = if pc < MEMORY_SIZE {
            (MEMORY_SIZE - pc) / 2
        } else {
            0
        };
        let limit: usize = if limit < MAX_ROM_SIZE / 2 {
            limit
        } else {
            MAX_ROM_SIZE / 2
        };
        assert(pc < MEMORY_SIZE ==> 2 * ((MEMORY_SIZE - pc) / 2) <= MEMORY_SIZE - pc);
        let mut words: Vec<u16> = Vec::new();
        let mut k: usize = 0;
        while k < limit
            invariant
                limit == listing_len(pc as int),
                pc == self.pc,
                k <= limit,
                limit > 0 ==> pc + 2 * limit <= MEMORY_SIZE,
                words@.len() == k,
                forall|j: int|
                    0 <= j < k ==> words@[j] == word_at(self@.memory, pc + 2 * j) && words@[j]
                        != 0,
            decreases limit - k,
        {
            let a = pc + 2 * k;
            let hi = self.memory[a] as u16;
            let lo = self.memory[a + 1] as u16;
            assert(hi < 256 && lo < 256 ==> (hi << 8u16) | lo == hi * 256 + lo) by (bit_vector);
            let word = (hi << 8) | lo;
            if word == 0 {
                return words;
            }
            words.push(word);
            k += 1;
        }
        words
    }

    /// The big-endian word at `pc`, or `AddressOutOfRange` when `pc` is the last byte
    /// of memory or beyond.
    fn fetch(&self) -> (r: Result<u16, CpuError>)
        ensures
            self.pc + 1 >= MEMORY_SIZE ==> r == Err::<u16, CpuError>(CpuError::AddressOutOfRange),
            self.pc + 1 < MEMORY_SIZE ==> r == Ok::<u16, CpuError>(
                word_at(self@.memory, self.pc as int),
            ),
    {
        let pc = self.pc as usize;
        if pc + 1 >= MEMORY_SIZE {
            return Err(CpuError::AddressOutOfRange);
        }
        let hi = self.memory[pc] as u16;
        let lo = self.memory[pc + 1] as u16;
        assert(hi < 256 && lo < 256 ==> (hi << 8u16) | lo == hi * 256 + lo) by (bit_vector);
        Ok((hi << 8) | lo)
    }

    /// Counts each timer down by one, stopping at zero.
    pub fn tick_timers(&mut self)
        ensures
            final(self)@ == tick(old(self)@),
    {
        if self.delay_timer > 0 {
            self.delay_timer = self.delay_timer - 1;
        }
        if self.sound_timer > 0 {
            self.sound_timer = self.sound_timer - 1;
        }
    }

    /// Executes `opcode`, routed on its top four bits.
    fn dispatch(&mut self, opcode: u16, key: u8, random: u8) -> (r: Result<(), CpuError>)
        requires
            old(self).pc + 1 < MEMORY_SIZE,
        ensures
            applied(old(self)@, final(self)@, r, execute(old(self)@, opcode, key, random)),
    {
        proof {
            lemma_fields(opcode);
        }
        match opcode >> 12 {
            0x0 => self.op_0(opcode),
            0x1 => self.op_1(opcode),
            0x2 => self.op_2(opcode),
            0x3 => self.op_3(opcode),
            0x4 => self.op_4(opcode),
            0x5 => self.op_5(opcode),
            0x6 => self.op_6(opcode),
            0x7 => self.op_7(opcode),
            0x8 => self.op_8(opcode),
            0x9 => self.op_9(opcode),
            0xA => self.op_a(opcode),
            0xB => self.op_b(opcode),
            0xC => self.op_c(opcode, random),
            0xD => self.op_d(opcode),
            0xE => self.op_e(opcode, key),
            _ => self.op_f(opcode, key),
        }
    }

    /// Runs the instruction at `pc` with `key` pressed (0 for none) and `random` as the
    /// byte that a `Cxnn` draws, without counting the timers down: for a host that
    /// drives them at a rate of its own with `tick_timers`. While waiting for a key, this
    /// only resolves the wait. On failure the machine is left as it was.
    pub fn execute_instruction(&mut self, key: u8, random: u8) -> (r: Result<(), CpuError>)
        ensures
            applied(old(self)@, final(self)@, r, instruction(old(self)@, key, random)),
            old(self)@.wf() ==> final(self)@.wf(),
    {
        proof {
            if self@.wf() {
                lemma_instruction_keeps_wf(self@, key, random);
            }
        }
        let opcode = match self.fetch() {
            Ok(w) => w,
            Err(e) => {
                return Err(e);
            },
        };
        if self.wait_key {
            if key != 0 {
                self.v[reg_x(opcode)] = key;
                self.wait_key = false;
                self.pc = self.pc + 2;
            }
            return Ok(());
        }
        self.dispatch(opcode, key, random)
    }

    /// One cycle with `key` pressed (0 for none) and `random` as the byte that a
    /// `Cxnn` draws: unless waiting for a key, the timers count down, then the instruction
    /// at `pc` runs. On failure the machine is left as it was, timers included.
    pub fn step(&mut self, key: u8, random: u8) -> (r: Result<(), CpuError>)
        ensures
            applied(old(self)@, final(self)@, r, cycle(old(self)@, key, random)),
            old(self)@.wf() ==> final(self)@.wf(),
    {
        proof {
            if self@.wf() {
                lemma_cycle_keeps_wf(self@, key, random);
            }
        }
        if self.wait_key {
            return self.execute_instruction(key, random);
        }
        let delay = self.delay_timer;
        let sound = self.sound_timer;
        self.tick_timers();
        let r = self.execute_instruction(key, random);
        if r.is_err() {
            self.delay_timer = delay;
            self.sound_timer = sound;
        }
        r
    }

    /// One cycle with `key` pressed (0 for none); a `Cxnn` draws its byte from the
    /// thread-local random generator. On failure the machine is left as it was.
    pub fn emulate_cycle(&mut self, key: u8) -> (r: Result<(), CpuError>)
        ensures
            exists|rnd: u8| applied(old(self)@, final(self)@, r, #[trigger] cycle(old(self)@, key, rnd)),
            old(self)@.wf() ==> final(self)@.wf(),
    {
        let random = random_byte();
        self.step(key, random)
    }

    /// Writes `opcode` at `pc`, then runs one cycle as `emulate_cycle` does.
    pub fn emulate_instruction(&mut self, opcode: u16, key: u8) -> (r: Result<(), CpuError>)
        ensures
            old(self).pc + 1 >= MEMORY_SIZE ==> r == Err::<(), CpuError>(
                CpuError::AddressOutOfRange,
            ) && final(self)@ == old(self)@,
            old(self).pc + 1 < MEMORY_SIZE ==> exists|rnd: u8|
                applied(
                    with_word_at_pc(old(self)@, opcode),
                    final(self)@,
                    r,
                    #[trigger] cycle(with_word_at_pc(old(self)@, opcode), key, rnd),
                ),
            old(self)@.wf() ==> final(self)@.wf(),
    {
        let pc = self.pc as usize;
        if pc + 1 >= MEMORY_SIZE {
            return Err(CpuError::AddressOutOfRange);
        }
        assert((opcode >> 8u16) as u8 == (opcode / 256) as u8 && (opcode & 0xFF) as u8 == (opcode
            % 256) as u8) by (bit_vector);
        self.memory[pc] = (opcode >> 8) as u8;
        self.memory[pc + 1] = (opcode & 0xFF) as u8;
        assert(self@ == with_word_at_pc(old(self)@, opcode));
        self.emulate_cycle(key)
    }

    /// `8xyN`: copy, bitwise operations, and arithmetic with a flag, on `v[x]` and `v[y]`.
    /// Both operands are read before anything is written; the flag is written before
    /// the result.
    #[verifier::rlimit(30)]
    fn op_8(&mut self, opcode: u16) -> (r: Result<(), CpuError>)
        requires
            old(self).pc + 1 < MEMORY_SIZE,
        ensures
            applied(old(self)@, final(self)@, r, sem_8(old(self)@, opcode)),
    {
        let x = reg_x(opcode);
        let y = reg_y(opcode);
        let a = self.v[x];
        let b = self.v[y];
        match low_n(opcode) {
            0 => {
                self.v[x] = b;
            },
            1 => {
                self.v[x] = a | b;
            },
            2 => {
                self.v[x] = a & b;
            },
            3 => {
                self.v[x] = a ^ b;
            },
            4 => {
                let sum = a as u16 + b as u16;
                self.v[FLAG] = if sum > 0xFF { 1 } else { 0 };
                self.v[x] = a.wrapping_add(b);
            },
            5 => {
                self.v[FLAG] = if a >= b { 1 } else { 0 };
                self.v[x] = a.wrapping_sub(b);
            },
            6 => {
                assert(a & 1 == a % 2 && a >> 1u8 == a / 2) by (bit_vector);
                self.v[FLAG] = a & 1;
                self.v[x] = a >> 1;
            },
            7 => {
                self.v[FLAG] = if b >= a { 1 } else { 0 };
                self.v[x] = b.wrapping_sub(a);
            },
            0xE => {
                assert((a & 0x80) >> 7u8 == a / 128 && a << 1u8 == ((a * 2) % 256) as u8)
                    by (bit_vector);
                self.v[FLAG] = (a & 0x80) >> 7;
                self.v[x] = a << 1;
            },
            _ => {
                return Err(CpuError::IllegalInstruction);
            },
        }
        self.pc = self.pc + 2;
        Ok(())
    }

    /// `00E0` clears the screen; `00EE` returns from a subroutine.
    fn op_0(&mut self, opcode: u16) -> (r: Result<(), CpuError>)
        requires
            old(self).pc + 1 < MEMORY_SIZE,
        ensures
            applied(old(self)@, final(self)@, r, sem_0(old(self)@, opcode)),
    {
        match low_nnn(opcode) {
            0x0E0 => {
                self.gfx = [[0u8; WIDTH]; HEIGHT];
                assert(self@.gfx =~~= blank_frame());
                self.pc = self.pc + 2;
                Ok(())
            },
            0x0EE => {
                if self.sp == 0 {
                    Err(CpuError::StackUnderflow)
                } else if self.sp as usize > STACK_SIZE {
                    Err(CpuError::AddressOutOfRange)
                } else {
                    self.sp = self.sp - 1;
                    self.pc = self.stack[self.sp as usize];
                    Ok(())
                }
            },
            _ => Err(CpuError::IllegalInstruction),
        }
    }

    /// `1nnn` jumps to `nnn`.
    fn op_1(&mut self, opcode: u16) -> (r: Result<(), CpuError>)
        ensures
            applied(old(self)@, final(self)@, r, sem_1(old(self)@, opcode)),
    {
        self.pc = low_nnn(opcode);
        Ok(())
    }

    /// `2nnn` calls the subroutine at `nnn`.
    fn op_2(&mut self, opcode: u16) -> (r: Result<(), CpuError>)
        requires
            old(self).pc + 1 < MEMORY_SIZE,
        ensures
            applied(old(self)@, final(self)@, r, sem_2(old(self)@, opcode)),
    {
        if self.sp as usize >= STACK_SIZE {
            return Err(CpuError::StackOverflow);
        }
        self.stack[self.sp as usize] = self.pc + 2;
        self.sp = self.sp + 1;
        self.pc = low_nnn(opcode);
        Ok(())
    }

    /// `3xnn` skips the next instruction when `v[x] == nn`.
    fn op_3(&mut self, opcode: u16) -> (r: Result<(), CpuError>)
        requires
            old(self).pc + 1 < MEMORY_SIZE,
        ensures
            applied(old(self)@, final(self)@, r, sem_3(old(self)@, opcode)),
    {
        let x = reg_x(opcode);
        if self.v[x] == low_nn(opcode) {
            self.pc = self.pc + 2;
        }
        self.pc = self.pc + 2;
        Ok(())
    }

    /// `4xnn` skips the next instruction when `v[x] != nn`.
    fn op_4(&mut self, opcode: u16) -> (r: Result<(), CpuError>)
        requires
            old(self).pc + 1 < MEMORY_SIZE,
        ensures
            applied(old(self)@, final(self)@, r, sem_4(old(self)@, opcode)),
    {
        let x = reg_x(opcode);
        if self.v[x] != low_nn(opcode) {
            self.pc = self.pc + 2;
        }
        self.pc = self.pc + 2;
        Ok(())
    }

    /// `5xy0` skips the next instruction when `v[x] == v[y]`.
    fn op_5(&mut self, opcode: u16) -> (r: Result<(), CpuError>)
        requires
            old(self).pc + 1 < MEMORY_SIZE,
        ensures
            applied(old(self)@, final(self)@, r, sem_5(old(self)@, opcode)),
    {
        if low_n(opcode) != 0 {
            return Err(CpuError::IllegalInstruction);
        }
        let x = reg_x(opcode);
        let y = reg_y(opcode);
        if self.v[x] == self.v[y] {
            self.pc = self.pc + 2;
        }
        self.pc = self.pc + 2;
        Ok(())
    }

    /// `6xnn` sets `v[x]` to `nn`.
    fn op_6(&mut self, opcode: u16) -> (r: Result<(), CpuError>)
        requires
            old(self).pc + 1 < MEMORY_SIZE,
        ensures
            applied(old(self)@, final(self)@, r, sem_6(old(self)@, opcode)),
    {
        let x = reg_x(opcode);
        self.v[x] = low_nn(opcode);
        self.pc = self.pc + 2;
        Ok(())
    }

    /// `7xnn` adds `nn` to `v[x]`, wrapping; the flag is left alone.
    fn op_7(&mut self, opcode: u16) -> (r: Result<(), CpuError>)
        requires
            old(self).pc + 1 < MEMORY_SIZE,
        ensures
            applied(old(self)@, final(self)@, r, sem_7(old(self)@, opcode)),
    {
        let x = reg_x(opcode);
        self.v[x] = self.v[x].wrapping_add(low_nn(opcode));
        self.pc = self.pc + 2;
        Ok(())
    }

    /// `9xy0` skips the next instruction when `v[x] != v[y]`.
    fn op_9(&mut self, opcode: u16) -> (r: Result<(), CpuError>)
        requires
            old(self).pc + 1 < MEMORY_SIZE,
        ensures
            applied(old(self)@, final(self)@, r, sem_9(old(self)@, opcode)),
    {
        if low_n(opcode) != 0 {
            return Err(CpuError::IllegalInstruction);
        }
        let x = reg_x(opcode);
        let y = reg_y(opcode);
        if self.v[x] != self.v[y] {
            self.pc = self.pc + 2;
        }
        self.pc = self.pc + 2;
        Ok(())
    }

    /// `Annn` sets the index register to `nnn`.
    fn op_a(&mut self, opcode: u16) -> (r: Result<(), CpuError>)
        requires
            old(self).pc + 1 < MEMORY_SIZE,
        ensures
            applied(old(self)@, final(self)@, r, sem_a(old(self)@, opcode)),
    {
        self.i = low_nnn(opcode);
        self.pc = self.pc + 2;
        Ok(())
    }

    /// `Bnnn` jumps to `v[0] + nnn`.
    fn op_b(&mut self, opcode: u16) -> (r: Result<(), CpuError>)
        ensures
            applied(old(self)@, final(self)@, r, sem_b(old(self)@, opcode)),
    {
        self.pc = self.v[0] as u16 + low_nnn(opcode);
        Ok(())
    }

    /// `Cxnn` sets `v[x]` to `random & nn`.
    fn op_c(&mut self, opcode: u16, random: u8) -> (r: Result<(), CpuError>)
        requires
            old(self).pc + 1 < MEMORY_SIZE,
        ensures
            applied(old(self)@, final(self)@, r, sem_c(old(self)@, opcode, random)),
    {
        let x = reg_x(opcode);
        self.v[x] = random & low_nn(opcode);
        self.pc = self.pc + 2;
        Ok(())
    }

    /// `Dxyn` XORs the `n`-row sprite at `memory[i]` onto the screen at `(v[x], v[y])`,
    /// wrapping around the edges, and sets the flag when a lit pixel was turned off.
    fn op_d(&mut self, opcode: u16) -> (r: Result<(), CpuError>)
        requires
            old(self).pc + 1 < MEMORY_SIZE,
        ensures
            applied(old(self)@, final(self)@, r, sem_d(old(self)@, opcode)),
    {
        let x = reg_x(opcode);
        let y = reg_y(opcode);
        let n = low_n(opcode);
        let base = self.i as usize;
        if base + n > MEMORY_SIZE {
            return Err(CpuError::AddressOutOfRange);
        }
        let vx = self.v[x] as usize;
        let vy = self.v[y] as usize;
        let ghost pre = self@;
        let ghost sprite = sprite_of(pre, n as int);
        assert(pre.gfx =~~= drawn_before(pre.gfx, sprite, vx as int, vy as int, 0, 0));
        let mut collision = false;
        let mut r: usize = 0;
        while r < n
            invariant
                r <= n < 16,
                base == pre.i,
                base + n <= MEMORY_SIZE,
                vx < 256,
                vy < 256,
                pre.shaped(),
                sprite == sprite_of(pre, n as int),
                self@ == (CpuState {
                    gfx: drawn_before(pre.gfx, sprite, vx as int, vy as int, r as int, 0),
                    ..pre
                }),
                collision == collides_before(pre.gfx, sprite, vx as int, vy as int, r as int, 0),
            decreases n - r,
        {
            let row = (vy + r) % HEIGHT;
            let bits = self.memory[base + r];
            let mut b: usize = 0;
            while b < 8
                invariant
                    r < n < 16,
                    b <= 8,
                    base == pre.i,
                    base + n <= MEMORY_SIZE,
                    vx < 256,
                    vy < 256,
                    row == (vy + r) % (HEIGHT as int),
                    bits == sprite[r as int],
                    pre.shaped(),
                    sprite == sprite_of(pre, n as int),
                    self@ == (CpuState {
                        gfx: drawn_before(pre.gfx, sprite, vx as int, vy as int, r as int, b as int),
                        ..pre
                    }),
                    collision == collides_before(
                        pre.gfx,
                        sprite,
                        vx as int,
                        vy as int,
                        r as int,
                        b as int,
                    ),
                decreases 8 - b,
            {
                let col = (vx + b) % WIDTH;
                let ghost before = self@.gfx;
                proof {
                    lemma_wrap(vy as int, r as int, row as int, HEIGHT as int);
                    lemma_wrap(vx as int, b as int, col as int, WIDTH as int);
                    assert(before[row as int][col as int] == pre.gfx[row as int][col as int]);
                }
                let ghost expected = if sprite_pixel(bits, b as int) {
                    before.update(
                        row as int,
                        before[row as int].update(col as int, toggled(before[row as int][col as int])),
                    )
                } else {
                    before
                };
                if (bits >> (7 - b as u8)) & 1 == 1 {
                    if self.gfx[row][col] != 0 {
                        collision = true;
                        self.gfx[row][col] = 0;
                    } else {
                        self.gfx[row][col] = 1;
                    }
                    assert(self@.gfx =~~= expected);
                    assert(hits(pre.gfx, sprite, vx as int, vy as int, r as int, b as int)
                        ==> collides_before(
                        pre.gfx,
                        sprite,
                        vx as int,
                        vy as int,
                        r as int,
                        b + 1,
                    ));
                }
                assert(self@.gfx =~~= expected);
                proof {
                    let next = drawn_before(pre.gfx, sprite, vx as int, vy as int, r as int, b + 1);
                    assert forall|row2: int, col2: int|
                        0 <= row2 < HEIGHT && 0 <= col2 < WIDTH implies self@.gfx[row2][col2]
                        == next[row2][col2] by {
                        lemma_wrap(vy as int, r as int, row2, HEIGHT as int);
                        lemma_wrap(vx as int, b as int, col2, WIDTH as int);
                    }
                    assert forall|row2: int| 0 <= row2 < HEIGHT implies self@.gfx[row2]
                        =~= next[row2] by {}
                    assert(self@.gfx =~= next);
                }
                b += 1;
            }
            proof {
                assert(self@.gfx =~~= drawn_before(
                    pre.gfx,
                    sprite,
                    vx as int,
                    vy as int,
                    r + 1,
                    0,
                ));
            }
            r += 1;
        }
        self.v[FLAG] = if collision { 1 } else { 0 };
        self.pc = self.pc + 2;
        Ok(())
    }

    /// `Ex9E` and `ExA1` skip the next instruction when `key` is, or is not, `v[x]`.
    fn op_e(&mut self, opcode: u16, key: u8) -> (r: Result<(), CpuError>)
        requires
            old(self).pc + 1 < MEMORY_SIZE,
        ensures
            applied(old(self)@, final(self)@, r, sem_e(old(self)@, opcode, key)),
    {
        let x = reg_x(opcode);
        match low_nn(opcode) {
            0x9E => {
                if self.v[x] == key {
                    self.pc = self.pc + 2;
                }
            },
            0xA1 => {
                if self.v[x] != key {
                    self.pc = self.pc + 2;
                }
            },
            _ => {
                return Err(CpuError::IllegalInstruction);
            },
        }
        self.pc = self.pc + 2;
        Ok(())
    }

    /// `Fxnn`: timers, the key wait, the index register, and memory transfers.
    fn op_f(&mut self, opcode: u16, key: u8) -> (r: Result<(), CpuError>)
        requires
            old(self).pc + 1 < MEMORY_SIZE,
        ensures
            applied(old(self)@, final(self)@, r, sem_f(old(self)@, opcode, key)),
    {
        let x = reg_x(opcode);
        match low_nn(opcode) {
            0x07 => {
                self.v[x] = self.delay_timer;
            },
            0x0A => {
                if key != 0 {
                    self.v[x] = key;
                } else {
                    self.wait_key = true;
                    return Ok(());
                }
            },
            0x15 => {
                self.delay_timer = self.v[x];
            },
            0x18 => {
                self.sound_timer = self.v[x];
            },
            0x1E => {
                self.i = self.i.wrapping_add(self.v[x] as u16);
            },
            0x29 => {
                self.i = (self.v[x] as u16) * 5;
            },
            0x33 => {
                let base = self.i as usize;
                if base + 2 >= MEMORY_SIZE {
                    return Err(CpuError::AddressOutOfRange);
                }
                let val = self.v[x];
                self.memory[base] = val / 100;
                self.memory[base + 1] = (val % 100) / 10;
                self.memory[base + 2] = val % 10;
            },
            0x55 => {
                let base = self.i as usize;
                if base + x >= MEMORY_SIZE {
                    return Err(CpuError::AddressOutOfRange);
                }
                let ghost pre = self@;
                assert(pre.memory =~= store_registers(pre, -1));
                let mut k: usize = 0;
                while k <= x
                    invariant
                        k <= x + 1,
                        x < REGISTER_COUNT,
                        base == pre.i,
                        base + x < MEMORY_SIZE,
                        pre.memory.len() == MEMORY_SIZE,
                        self@ == (CpuState { memory: store_registers(pre, k - 1), ..pre }),
                    decreases x + 1 - k,
                {
                    self.memory[base + k] = self.v[k];
                    k += 1;
                    assert(self@.memory =~= store_registers(pre, k - 1));
                }
            },
            0x65 => {
                let base = self.i as usize;
                if base + x >= MEMORY_SIZE {
                    return Err(CpuError::AddressOutOfRange);
                }
                let ghost pre = self@;
                assert(pre.v =~= load_registers(pre, -1));
                let mut k: usize = 0;
                while k <= x
                    invariant
                        k <= x + 1,
                        x < REGISTER_COUNT,
                        base == pre.i,
                        base + x < MEMORY_SIZE,
                        pre.memory.len() == MEMORY_SIZE,
                        pre.v.len() == REGISTER_COUNT,
                        self@ == (CpuState { v: load_registers(pre, k - 1), ..pre }),
                    decreases x + 1 - k,
                {
                    self.v[k] = self.memory[base + k];
                    k += 1;
                    assert(self@.v =~= load_registers(pre, k - 1));
                }
            },
            _ => {
                return Err(CpuError::IllegalInstruction);
            },
        }
        self.pc = self.pc + 2;
        Ok(())
    }
}

} // verus!
