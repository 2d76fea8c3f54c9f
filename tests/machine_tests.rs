use chip8::cartridge::Cartridge;
use chip8::cpu::Cpu;
use chip8::display::{FONT_SET, HEIGHT, WIDTH};
use chip8::error::CpuError;

fn load(rom: &[u8]) -> Cpu {
    Cpu::initialize(&rom.to_vec()).unwrap()
}

#[test]
fn program_set_then_add_runs_to_eight() {
    let mut cpu = load(&[0x60, 0x05, 0x70, 0x03]);
    cpu.emulate_cycle(0).unwrap();
    cpu.emulate_cycle(0).unwrap();
    assert_eq!(cpu.v[0], 8);
    assert_eq!(cpu.pc, 0x204);
}

#[test]
fn rom_one_byte_too_large_is_refused() {
    let rom = vec![0u8; 0xE01];
    assert_eq!(Cpu::initialize(&rom).unwrap_err(), CpuError::RomTooLarge);
}

#[test]
fn rom_filling_memory_is_loaded() {
    let mut rom = vec![0u8; 0xE00];
    rom[0xDFF] = 0xAB;
    let cpu = Cpu::initialize(&rom).unwrap();
    assert_eq!(cpu.memory[0xFFF], 0xAB);
}

#[test]
fn initialize_loads_font_and_clears_state() {
    let cart = Cartridge { rom: vec![0x12, 0x34] };
    let cpu = Cpu::initialize(&cart.rom).unwrap();
    assert_eq!(&cpu.memory[0..80], &FONT_SET[..]);
    assert_eq!(cpu.memory[0x200], 0x12);
    assert_eq!(cpu.memory[0x201], 0x34);
    assert_eq!(cpu.memory[0x202], 0);
    assert_eq!(cpu.delay_timer, 0);
    assert_eq!(cpu.sound_timer, 0);
    assert!(!cpu.wait_key);
    assert!(cpu.gfx.iter().all(|row| row.iter().all(|&p| p == 0)));
}

#[test]
fn set_then_add_wraps_and_keeps_flag() {
    let mut cpu = load(&[0x63, 0x90, 0x73, 0x90]);
    cpu.v[0xf] = 7;
    cpu.emulate_cycle(0).unwrap();
    cpu.emulate_cycle(0).unwrap();
    assert_eq!(cpu.v[3], 0x20);
    assert_eq!(cpu.pc, 0x204);
    assert_eq!(cpu.v[0xf], 7);
}

#[test]
fn add_sets_carry_exactly_on_overflow() {
    for (a, b) in [(0u8, 0u8), (200, 55), (200, 56), (255, 255)] {
        let mut cpu = load(&[0x81, 0x24]);
        cpu.v[1] = a;
        cpu.v[2] = b;
        cpu.emulate_cycle(0).unwrap();
        assert_eq!(cpu.v[1], ((a as u16 + b as u16) % 256) as u8);
        assert_eq!(cpu.v[0xf], if a as u16 + b as u16 > 255 { 1 } else { 0 });
    }
}

#[test]
fn subtractions_set_flag_when_no_borrow() {
    for (a, b) in [(5u8, 5u8), (5, 6), (6, 5), (0, 255)] {
        let mut cpu = load(&[0x81, 0x25]);
        cpu.v[1] = a;
        cpu.v[2] = b;
        cpu.emulate_cycle(0).unwrap();
        assert_eq!(cpu.v[1], a.wrapping_sub(b));
        assert_eq!(cpu.v[0xf], if a >= b { 1 } else { 0 });

        let mut cpu = load(&[0x81, 0x27]);
        cpu.v[1] = a;
        cpu.v[2] = b;
        cpu.emulate_cycle(0).unwrap();
        assert_eq!(cpu.v[1], b.wrapping_sub(a));
        assert_eq!(cpu.v[0xf], if b >= a { 1 } else { 0 });
    }
}

#[test]
fn flag_register_as_target_keeps_result() {
    let mut cpu = load(&[0x8f, 0x14]);
    cpu.v[0xf] = 0xff;
    cpu.v[1] = 2;
    cpu.emulate_cycle(0).unwrap();
    assert_eq!(cpu.v[0xf], 1);
}

#[test]
fn drawing_twice_restores_screen() {
    let mut cpu = load(&[0xd1, 0x23, 0xd1, 0x23]);
    cpu.i = 0x300;
    cpu.memory[0x300] = 0b1010_0000;
    cpu.memory[0x301] = 0b0000_0001;
    cpu.memory[0x302] = 0b1111_1111;
    cpu.v[1] = 3;
    cpu.v[2] = 4;
    cpu.gfx[4][3] = 1;
    cpu.gfx[6][10] = 1;
    let before = cpu.gfx;
    cpu.emulate_cycle(0).unwrap();
    assert_eq!(cpu.v[0xf], 1);
    assert_eq!(cpu.gfx[4][3], 0);
    assert_eq!(cpu.gfx[4][5], 1);
    assert_eq!(cpu.gfx[5][10], 1);
    assert_eq!(cpu.gfx[6][10], 0);
    cpu.emulate_cycle(0).unwrap();
    assert_eq!(cpu.gfx, before);
    assert_eq!(cpu.v[0xf], 1);
}

#[test]
fn drawing_on_blank_screen_twice_flags_second_only() {
    let mut cpu = load(&[0xd0, 0x01, 0xd0, 0x01]);
    cpu.i = 0;
    cpu.emulate_cycle(0).unwrap();
    assert_eq!(cpu.v[0xf], 0);
    cpu.emulate_cycle(0).unwrap();
    assert_eq!(cpu.v[0xf], 1);
    assert!(cpu.gfx.iter().all(|row| row.iter().all(|&p| p == 0)));
}

#[test]
fn drawing_wraps_around_edges() {
    let mut cpu = load(&[0xd1, 0x22]);
    cpu.i = 0x300;
    cpu.memory[0x300] = 0xff;
    cpu.memory[0x301] = 0x81;
    cpu.v[1] = 62;
    cpu.v[2] = 31;
    cpu.emulate_cycle(0).unwrap();
    for col in [62, 63, 0, 1, 2, 3, 4, 5] {
        assert_eq!(cpu.gfx[31][col], 1);
    }
    assert_eq!(cpu.gfx[31][6], 0);
    assert_eq!(cpu.gfx[0][62], 1);
    assert_eq!(cpu.gfx[0][5], 1);
    assert_eq!(cpu.gfx[0][63], 0);
    assert_eq!(cpu.v[0xf], 0);
}

#[test]
fn drawing_with_large_coordinates_wraps() {
    let mut cpu = load(&[0xd1, 0x21]);
    cpu.i = 0x300;
    cpu.memory[0x300] = 0x80;
    cpu.v[1] = 255;
    cpu.v[2] = 255;
    cpu.emulate_cycle(0).unwrap();
    assert_eq!(cpu.gfx[255 % HEIGHT][255 % WIDTH], 1);
}

#[test]
fn key_wait_freezes_until_key() {
    let mut cpu = load(&[0xf5, 0x0a]);
    cpu.delay_timer = 10;
    cpu.sound_timer = 3;
    cpu.emulate_cycle(0).unwrap();
    assert!(cpu.wait_key);
    assert_eq!(cpu.pc, 0x200);
    let frozen = cpu;
    for _ in 0..5 {
        cpu.emulate_cycle(0).unwrap();
        assert_eq!(cpu.pc, frozen.pc);
        assert_eq!(cpu.delay_timer, frozen.delay_timer);
        assert_eq!(cpu.sound_timer, frozen.sound_timer);
        assert_eq!(cpu.v, frozen.v);
        assert!(cpu.wait_key);
    }
    cpu.emulate_cycle(7).unwrap();
    assert!(!cpu.wait_key);
    assert_eq!(cpu.v[5], 7);
    assert_eq!(cpu.pc, 0x202);
    assert_eq!(cpu.delay_timer, frozen.delay_timer);
}

#[test]
fn key_wait_takes_key_at_once() {
    let mut cpu = load(&[0xf2, 0x0a]);
    cpu.emulate_cycle(9).unwrap();
    assert!(!cpu.wait_key);
    assert_eq!(cpu.v[2], 9);
    assert_eq!(cpu.pc, 0x202);
}

#[test]
fn call_then_return_restores_pc_and_sp() {
    let mut cpu = load(&[0x23, 0x00]);
    cpu.memory[0x300] = 0x00;
    cpu.memory[0x301] = 0xee;
    cpu.emulate_cycle(0).unwrap();
    assert_eq!(cpu.pc, 0x300);
    assert_eq!(cpu.sp, 1);
    cpu.emulate_cycle(0).unwrap();
    assert_eq!(cpu.pc, 0x202);
    assert_eq!(cpu.sp, 0);
}

#[test]
fn return_on_empty_stack_underflows() {
    let mut cpu = load(&[0x00, 0xee]);
    cpu.delay_timer = 5;
    assert_eq!(cpu.emulate_cycle(0), Err(CpuError::StackUnderflow));
    assert_eq!(cpu.pc, 0x200);
    assert_eq!(cpu.delay_timer, 5);
}

#[test]
fn call_on_full_stack_overflows() {
    let mut cpu = load(&[0x22, 0x00]);
    for _ in 0..16 {
        cpu.emulate_cycle(0).unwrap();
    }
    assert_eq!(cpu.sp, 16);
    assert_eq!(cpu.emulate_cycle(0), Err(CpuError::StackOverflow));
    assert_eq!(cpu.sp, 16);
}

#[test]
fn return_with_stack_pointer_out_of_range_fails() {
    let mut cpu = load(&[0x00, 0xee]);
    cpu.sp = 40;
    assert_eq!(cpu.emulate_cycle(0), Err(CpuError::AddressOutOfRange));
}

#[test]
fn unknown_instructions_are_illegal() {
    for word in [0x0123u16, 0x00e1, 0x5121, 0x9121, 0x8128, 0x812f, 0xe1b0, 0xe18e, 0xf1ff, 0xf100, 0xf119, 0xf140] {
        let mut cpu = load(&[(word >> 8) as u8, word as u8]);
        cpu.delay_timer = 9;
        assert_eq!(cpu.emulate_cycle(0), Err(CpuError::IllegalInstruction));
        assert_eq!(cpu.pc, 0x200);
        assert_eq!(cpu.delay_timer, 9);
    }
}

#[test]
fn memory_accesses_past_the_end_fail() {
    let cases: [(u16, u16); 4] = [(0xf033, 0xffe), (0xf255, 0xffe), (0xf265, 0xffe), (0xd002, 0xfff)];
    for (word, index) in cases {
        let mut cpu = load(&[(word >> 8) as u8, word as u8]);
        cpu.i = index;
        assert_eq!(cpu.emulate_cycle(0), Err(CpuError::AddressOutOfRange));
        assert_eq!(cpu.pc, 0x200);
    }
}

#[test]
fn fetch_past_the_end_fails() {
    let mut cpu = load(&[0x1f, 0xff]);
    cpu.emulate_cycle(0).unwrap();
    assert_eq!(cpu.pc, 0xfff);
    assert_eq!(cpu.emulate_cycle(0), Err(CpuError::AddressOutOfRange));
    assert_eq!(cpu.emulate_instruction(0x00e0, 0), Err(CpuError::AddressOutOfRange));
}

#[test]
fn index_add_wraps_at_sixteen_bits() {
    let mut cpu = load(&[0xf1, 0x1e]);
    cpu.i = 0xffff;
    cpu.v[1] = 3;
    cpu.emulate_cycle(0).unwrap();
    assert_eq!(cpu.i, 2);
}

#[test]
fn jump_with_offset_adds_v0() {
    let mut cpu = load(&[0xbf, 0xff]);
    cpu.v[0] = 0xff;
    cpu.emulate_cycle(0).unwrap();
    assert_eq!(cpu.pc, 0x10fe);
    assert_eq!(cpu.emulate_cycle(0), Err(CpuError::AddressOutOfRange));
}

#[test]
fn bcd_of_small_and_large_values() {
    for (val, digits) in [(0u8, [0u8, 0, 0]), (7, [0, 0, 7]), (255, [2, 5, 5]), (40, [0, 4, 0])] {
        let mut cpu = load(&[0xf1, 0x33]);
        cpu.v[1] = val;
        cpu.i = 0x400;
        cpu.emulate_cycle(0).unwrap();
        assert_eq!(&cpu.memory[0x400..0x403], &digits[..]);
    }
}

#[test]
fn store_and_load_registers_round_trip() {
    let mut cpu = load(&[0xf3, 0x55, 0xa5, 0x00, 0xf3, 0x65]);
    cpu.v = [9, 8, 7, 6, 5, 4, 3, 2, 1, 0, 1, 2, 3, 4, 5, 6];
    cpu.i = 0x500;
    cpu.emulate_cycle(0).unwrap();
    assert_eq!(&cpu.memory[0x500..0x505], &[9, 8, 7, 6, 0][..]);
    cpu.v = [0; 16];
    cpu.emulate_cycle(0).unwrap();
    cpu.emulate_cycle(0).unwrap();
    assert_eq!(&cpu.v[0..5], &[9, 8, 7, 6, 0][..]);
}

#[test]
fn font_address_of_digit() {
    let mut cpu = load(&[0xf1, 0x29]);
    cpu.v[1] = 0xf;
    cpu.emulate_cycle(0).unwrap();
    assert_eq!(cpu.i, 75);
}

#[test]
fn timers_stop_at_zero() {
    let mut cpu = load(&[]);
    cpu.delay_timer = 1;
    cpu.sound_timer = 0;
    cpu.tick_timers();
    assert_eq!(cpu.delay_timer, 0);
    assert_eq!(cpu.sound_timer, 0);
    cpu.tick_timers();
    assert_eq!(cpu.delay_timer, 0);
}

#[test]
fn step_uses_given_random_byte() {
    let mut cpu = load(&[0xc2, 0x3c]);
    cpu.step(0, 0xff).unwrap();
    assert_eq!(cpu.v[2], 0x3c);
    let mut cpu = load(&[0xc2, 0x3c]);
    cpu.step(0, 0xa5).unwrap();
    assert_eq!(cpu.v[2], 0x24);
}

#[test]
fn print_digit_lights_glyph() {
    let mut cpu = load(&[]);
    cpu.print_digit(8, 32, 10);
    let glyph = [0xF0u8, 0x90, 0xF0, 0x90, 0xF0];
    for r in 0..5 {
        for b in 0..8 {
            let lit = (glyph[r] >> (7 - b)) & 1;
            assert_eq!(cpu.gfx[10 + r][32 + b], lit);
        }
    }
    assert_eq!(cpu.gfx[9][32], 0);
    assert_eq!(cpu.gfx[15][32], 0);
}

#[test]
fn print_digit_keeps_lit_pixels() {
    let mut cpu = load(&[]);
    cpu.gfx[0][7] = 1;
    cpu.gfx[1][0] = 1;
    cpu.print_digit(1, 0, 0);
    assert_eq!(cpu.gfx[0][7], 1);
    assert_eq!(cpu.gfx[1][0], 1);
    assert_eq!(cpu.gfx[0][2], 1);
    assert_eq!(cpu.gfx[0][1], 0);
}

#[test]
fn program_words_stop_at_zero_word() {
    let cpu = load(&[0x60, 0x05, 0x70, 0x03, 0x00, 0x00, 0x12, 0x00]);
    assert_eq!(cpu.program_words(), vec![0x6005, 0x7003]);
}

#[test]
fn program_words_stop_at_end_of_memory() {
    let mut cpu = load(&[]);
    cpu.pc = 0xffc;
    cpu.memory[0xffc] = 1;
    cpu.memory[0xffe] = 2;
    cpu.memory[0xfff] = 3;
    assert_eq!(cpu.program_words(), vec![0x0100, 0x0203]);
    cpu.pc = 0xfff;
    assert_eq!(cpu.program_words(), Vec::<u16>::new());
}

#[test]
fn malformed_sub_opcodes_are_illegal() {
    for word in [0xe49fu16, 0xe4a0, 0xe49d, 0xf456, 0xf421, 0xf553, 0xf334, 0xf664, 0xf417, 0xf40b] {
        let mut cpu = load(&[(word >> 8) as u8, word as u8]);
        cpu.i = 0x400;
        cpu.v[4] = 9;
        let before = cpu;
        assert_eq!(cpu.emulate_cycle(0), Err(CpuError::IllegalInstruction));
        assert_eq!(cpu.pc, before.pc);
        assert_eq!(cpu.i, before.i);
        assert_eq!(cpu.v, before.v);
        assert_eq!(&cpu.memory[..], &before.memory[..]);
    }
}

#[test]
fn execute_instruction_leaves_timers_alone() {
    let mut cpu = load(&[0xf3, 0x07, 0x63, 0x01]);
    cpu.delay_timer = 20;
    cpu.sound_timer = 4;
    cpu.execute_instruction(0, 0).unwrap();
    assert_eq!(cpu.v[3], 20);
    assert_eq!(cpu.delay_timer, 20);
    assert_eq!(cpu.sound_timer, 4);
    assert_eq!(cpu.pc, 0x202);
    cpu.tick_timers();
    cpu.execute_instruction(0, 0).unwrap();
    assert_eq!(cpu.v[3], 1);
    assert_eq!(cpu.delay_timer, 19);
    assert_eq!(cpu.sound_timer, 3);
}

#[test]
fn execute_instruction_resolves_key_wait() {
    let mut cpu = load(&[0xf6, 0x0a]);
    cpu.execute_instruction(0, 0).unwrap();
    assert!(cpu.wait_key);
    cpu.execute_instruction(0, 0).unwrap();
    assert!(cpu.wait_key);
    assert_eq!(cpu.pc, 0x200);
    cpu.execute_instruction(12, 0).unwrap();
    assert!(!cpu.wait_key);
    assert_eq!(cpu.v[6], 12);
    assert_eq!(cpu.pc, 0x202);
}
