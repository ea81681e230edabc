use chip8::{CpuError, CpuInput, Screen, CPU};

fn boot(program: &[u8]) -> CPU {
    CPU::new(Screen::new(), program.to_vec()).unwrap()
}

fn no_keys() -> CpuInput {
    CpuInput { key_pressed: [false; 16] }
}

fn keys_with(k: usize) -> CpuInput {
    let mut key_pressed = [false; 16];
    key_pressed[k] = true;
    CpuInput { key_pressed }
}

fn run(cpu: &mut CPU, steps: usize) {
    for _ in 0..steps {
        cpu.cycle(no_keys()).unwrap();
    }
}

#[test]
fn new_loads_font_and_program() {
    let cpu = boot(&[0x12, 0x34, 0xAB]);
    assert_eq!(cpu.pc, 0x200);
    assert_eq!(cpu.i, 0);
    assert!(cpu.stack.is_empty());
    assert_eq!(cpu.delay, 0);
    assert_eq!(cpu.sound, 0);
    assert_eq!(cpu.regs, [0; 16]);
    assert_eq!(&cpu.memory[0..5], &[0xF0, 0x90, 0x90, 0x90, 0xF0]);
    assert_eq!(&cpu.memory[75..80], &[0xF0, 0x80, 0xF0, 0x80, 0x80]);
    assert_eq!(cpu.memory[80], 0);
    assert_eq!(&cpu.memory[0x200..0x203], &[0x12, 0x34, 0xAB]);
    assert_eq!(cpu.memory[0x203], 0);
    assert_eq!(cpu.memory[4095], 0);
    assert!(cpu.screen.data.iter().all(|p| !*p));
}

#[test]
fn new_accepts_largest_program() {
    let cpu = boot(&vec![0x5A; 3584]);
    assert_eq!(cpu.memory[0x200], 0x5A);
    assert_eq!(cpu.memory[4095], 0x5A);
}

#[test]
fn new_refuses_oversized_program() {
    let r = CPU::new(Screen::new(), vec![0; 3585]);
    assert!(matches!(r, Err(CpuError::ProgramTooLarge { len: 3585 })));
}

#[test]
fn add_immediate_twice_wraps() {
    let mut cpu = boot(&[0x73, 0x90, 0x73, 0x90]);
    cpu.regs[3] = 0x50;
    cpu.regs[15] = 7;
    run(&mut cpu, 2);
    assert_eq!(cpu.regs[3], ((0x50u32 + 2 * 0x90) % 256) as u8);
    assert_eq!(cpu.regs[15], 7);
}

#[test]
fn add_registers_sets_carry() {
    let mut cpu = boot(&[0x81, 0x24, 0x83, 0x44]);
    cpu.regs[1] = 200;
    cpu.regs[2] = 100;
    cpu.regs[3] = 10;
    cpu.regs[4] = 20;
    run(&mut cpu, 1);
    assert_eq!(cpu.regs[1], 44);
    assert_eq!(cpu.regs[15], 1);
    run(&mut cpu, 1);
    assert_eq!(cpu.regs[3], 30);
    assert_eq!(cpu.regs[15], 0);
}

#[test]
fn add_registers_at_exactly_255_has_no_carry() {
    let mut cpu = boot(&[0x81, 0x24]);
    cpu.regs[1] = 200;
    cpu.regs[2] = 55;
    run(&mut cpu, 1);
    assert_eq!(cpu.regs[1], 255);
    assert_eq!(cpu.regs[15], 0);
}

#[test]
fn subtract_sets_no_borrow_flag() {
    let mut cpu = boot(&[0x81, 0x25, 0x83, 0x45, 0x85, 0x65]);
    cpu.regs[1] = 5;
    cpu.regs[2] = 9;
    cpu.regs[3] = 9;
    cpu.regs[4] = 5;
    cpu.regs[5] = 7;
    cpu.regs[6] = 7;
    run(&mut cpu, 1);
    assert_eq!(cpu.regs[1], 252);
    assert_eq!(cpu.regs[15], 0);
    run(&mut cpu, 1);
    assert_eq!(cpu.regs[3], 4);
    assert_eq!(cpu.regs[15], 1);
    run(&mut cpu, 1);
    assert_eq!(cpu.regs[5], 0);
    assert_eq!(cpu.regs[15], 1);
}

#[test]
fn reverse_subtract_and_logic_ops() {
    let mut cpu = boot(&[0x81, 0x27, 0x83, 0x41, 0x85, 0x62, 0x87, 0x83, 0x89, 0xA0]);
    cpu.regs[1] = 9;
    cpu.regs[2] = 5;
    cpu.regs[3] = 0b1100;
    cpu.regs[4] = 0b1010;
    cpu.regs[5] = 0b1100;
    cpu.regs[6] = 0b1010;
    cpu.regs[7] = 0b1100;
    cpu.regs[8] = 0b1010;
    cpu.regs[10] = 0x42;
    run(&mut cpu, 1);
    assert_eq!(cpu.regs[1], 252);
    assert_eq!(cpu.regs[15], 0);
    run(&mut cpu, 4);
    assert_eq!(cpu.regs[3], 0b1110);
    assert_eq!(cpu.regs[5], 0b1000);
    assert_eq!(cpu.regs[7], 0b0110);
    assert_eq!(cpu.regs[9], 0x42);
}

#[test]
fn shifts_read_register_y() {
    let mut cpu = boot(&[0x81, 0x26, 0x83, 0x4E]);
    cpu.regs[1] = 0xFF;
    cpu.regs[2] = 0b0000_0101;
    cpu.regs[4] = 0b1000_0011;
    run(&mut cpu, 1);
    assert_eq!(cpu.regs[1], 0b0000_0010);
    assert_eq!(cpu.regs[15], 1);
    run(&mut cpu, 1);
    assert_eq!(cpu.regs[3], 0b0000_0110);
    assert_eq!(cpu.regs[15], 1);
}

#[test]
fn clear_screen_turns_every_pixel_off() {
    let mut cpu = boot(&[0x00, 0xE0]);
    cpu.screen.data[0] = true;
    cpu.screen.data[777] = true;
    cpu.screen.data[2047] = true;
    run(&mut cpu, 1);
    assert!(cpu.screen.data.iter().all(|p| !*p));
}

#[test]
fn draw_full_byte_at_origin() {
    let mut cpu = boot(&[0xA2, 0x04, 0xD0, 0x01, 0xFF]);
    run(&mut cpu, 2);
    for x in 0..8 {
        assert!(cpu.screen.data[x]);
    }
    assert!(cpu.screen.data.iter().filter(|p| **p).count() == 8);
    assert_eq!(cpu.regs[15], 0);
}

#[test]
fn draw_twice_restores_and_reports_collision() {
    let mut cpu = boot(&[0xA2, 0x06, 0xD1, 0x22, 0xD1, 0x22, 0xC3, 0x81]);
    cpu.regs[1] = 10;
    cpu.regs[2] = 4;
    cpu.screen.data[10 + 4 * 64] = true;
    let before = cpu.screen.data;
    run(&mut cpu, 2);
    assert_eq!(cpu.regs[15], 1);
    assert!(!cpu.screen.data[10 + 4 * 64]);
    assert!(cpu.screen.data[11 + 4 * 64]);
    assert!(cpu.screen.data[10 + 5 * 64]);
    run(&mut cpu, 1);
    assert_eq!(cpu.screen.data, before);
    assert_eq!(cpu.regs[15], 1);
}

#[test]
fn draw_clips_at_bottom_edge() {
    let mut cpu = boot(&[0xA2, 0x04, 0xD0, 0x13, 0x80, 0x80, 0x80]);
    cpu.regs[1] = 31;
    run(&mut cpu, 2);
    assert!(cpu.screen.data[31 * 64]);
    assert_eq!(cpu.screen.data.iter().filter(|p| **p).count(), 1);
}

#[test]
fn draw_runs_past_right_edge_into_next_row() {
    let mut cpu = boot(&[0xA2, 0x04, 0xD0, 0x11, 0xFF]);
    cpu.regs[0] = 60;
    run(&mut cpu, 2);
    for x in 60..64 {
        assert!(cpu.screen.data[x]);
    }
    for x in 64..68 {
        assert!(cpu.screen.data[x]);
    }
}

#[test]
fn draw_coordinates_are_masked() {
    let mut cpu = boot(&[0xA2, 0x04, 0xD0, 0x11, 0x80]);
    cpu.regs[0] = 64 + 3;
    cpu.regs[1] = 32 + 2;
    run(&mut cpu, 2);
    assert!(cpu.screen.data[3 + 2 * 64]);
}

#[test]
fn draw_overrunning_framebuffer_is_fatal() {
    let mut cpu = boot(&[0xA2, 0x04, 0xD0, 0x11, 0xFF]);
    cpu.regs[0] = 63;
    cpu.regs[1] = 31;
    run(&mut cpu, 1);
    let screen = cpu.screen.data;
    let r = cpu.cycle(no_keys());
    assert!(matches!(r, Err(CpuError::AddressOutOfRange { pc: 0x202 })));
    assert_eq!(cpu.pc, 0x202);
    assert_eq!(cpu.screen.data, screen);
}

#[test]
fn call_then_return_resumes_after_call() {
    let mut cpu = boot(&[0x22, 0x06, 0x00, 0x00, 0x00, 0x00, 0x60, 0x01, 0x00, 0xEE]);
    run(&mut cpu, 1);
    assert_eq!(cpu.pc, 0x206);
    assert_eq!(cpu.stack, vec![0x202]);
    run(&mut cpu, 2);
    assert_eq!(cpu.pc, 0x202);
    assert!(cpu.stack.is_empty());
    assert_eq!(cpu.regs[0], 1);
}

#[test]
fn skip_scenario_reaches_tight_loop() {
    let mut cpu = boot(&[0x6A, 0x05, 0x3A, 0x05, 0x12, 0x04, 0x12, 0x06]);
    run(&mut cpu, 1);
    assert_eq!(cpu.regs[0xA], 5);
    run(&mut cpu, 1);
    assert_eq!(cpu.pc, 0x206);
    run(&mut cpu, 1);
    assert_eq!(cpu.pc, 0x206);
    run(&mut cpu, 5);
    assert_eq!(cpu.pc, 0x206);
}

#[test]
fn skips_on_registers_and_immediates() {
    let mut cpu = boot(&[0x40, 0x01, 0x00, 0x00, 0x51, 0x20, 0x00, 0x00, 0x91, 0x30]);
    cpu.regs[1] = 4;
    cpu.regs[2] = 4;
    cpu.regs[3] = 5;
    run(&mut cpu, 1);
    assert_eq!(cpu.pc, 0x204);
    run(&mut cpu, 1);
    assert_eq!(cpu.pc, 0x208);
    run(&mut cpu, 1);
    assert_eq!(cpu.pc, 0x20C);
}

#[test]
fn random_with_zero_mask_is_zero() {
    let mut cpu = boot(&[0xC5, 0x00]);
    cpu.random = 0xDEAD_BEEF;
    cpu.regs[5] = 0x77;
    run(&mut cpu, 1);
    assert_eq!(cpu.regs[5], 0);
}

#[test]
fn random_follows_xorshift() {
    let mut cpu = boot(&[0xC0, 0xFF, 0xC1, 0x0F]);
    run(&mut cpu, 1);
    assert_eq!(cpu.random, 0x0004_2021);
    assert_eq!(cpu.regs[0], 0x21);
    run(&mut cpu, 1);
    let mut s: u32 = 0x0004_2021;
    s ^= s << 13;
    s ^= s >> 17;
    s ^= s << 5;
    assert_eq!(cpu.random, s);
    assert_eq!(cpu.regs[1], (s as u8) & 0x0F);
}

#[test]
fn jump_with_offset_uses_register_x() {
    let mut cpu = boot(&[0xB3, 0x00]);
    cpu.regs[3] = 0x10;
    cpu.regs[0] = 0x99;
    run(&mut cpu, 1);
    assert_eq!(cpu.pc, 0x310);
}

#[test]
fn key_skips() {
    let mut cpu = boot(&[0xE2, 0x9E, 0x00, 0x00, 0xE2, 0xA1]);
    cpu.regs[2] = 0x17;
    cpu.cycle(keys_with(7)).unwrap();
    assert_eq!(cpu.pc, 0x204);
    cpu.cycle(keys_with(7)).unwrap();
    assert_eq!(cpu.pc, 0x206);
}

#[test]
fn key_wait_spins_until_pressed() {
    let mut cpu = boot(&[0xF4, 0x0A]);
    let out = cpu.cycle(no_keys()).unwrap();
    assert!(!out.should_beep);
    assert_eq!(cpu.pc, 0x200);
    let mut keys = [false; 16];
    keys[9] = true;
    keys[12] = true;
    cpu.cycle(CpuInput { key_pressed: keys }).unwrap();
    assert_eq!(cpu.pc, 0x202);
    assert_eq!(cpu.regs[4], 9);
}

#[test]
fn timers_and_beep() {
    let mut cpu = boot(&[0x60, 0x02, 0xF0, 0x15, 0xF0, 0x18, 0xF1, 0x07]);
    run(&mut cpu, 2);
    assert_eq!(cpu.delay, 2);
    let out = cpu.cycle(no_keys()).unwrap();
    assert!(out.should_beep);
    assert_eq!(cpu.sound, 2);
    cpu.tick_timers();
    cpu.tick_timers();
    cpu.tick_timers();
    assert_eq!(cpu.delay, 0);
    assert_eq!(cpu.sound, 0);
    let out = cpu.cycle(no_keys()).unwrap();
    assert!(!out.should_beep);
    assert_eq!(cpu.regs[1], 0);
}

#[test]
fn index_add_sets_flag_past_twelve_bits() {
    let mut cpu = boot(&[0xAF, 0xFE, 0xF0, 0x1E, 0xF0, 0x1E]);
    cpu.regs[0] = 1;
    run(&mut cpu, 2);
    assert_eq!(cpu.i, 0xFFF);
    assert_eq!(cpu.regs[15], 0);
    run(&mut cpu, 1);
    assert_eq!(cpu.i, 0x1000);
    assert_eq!(cpu.regs[15], 1);
}

#[test]
fn font_glyph_address() {
    let mut cpu = boot(&[0xF3, 0x29]);
    cpu.regs[3] = 0xA;
    run(&mut cpu, 1);
    assert_eq!(cpu.i, 50);
    assert_eq!(&cpu.memory[50..55], &[0xF0, 0x90, 0xF0, 0x90, 0x90]);
}

#[test]
fn bcd_stores_digits() {
    let mut cpu = boot(&[0xA3, 0x00, 0xF5, 0x33]);
    cpu.regs[5] = 254;
    run(&mut cpu, 2);
    assert_eq!(&cpu.memory[0x300..0x303], &[2, 5, 4]);
    assert_eq!(cpu.i, 0x300);
}

#[test]
fn store_and_load_registers() {
    let mut cpu = boot(&[0xA3, 0x00, 0xF2, 0x55, 0xA3, 0x01, 0xF1, 0x65]);
    cpu.regs[0] = 10;
    cpu.regs[1] = 20;
    cpu.regs[2] = 30;
    cpu.regs[3] = 40;
    run(&mut cpu, 2);
    assert_eq!(&cpu.memory[0x300..0x304], &[10, 20, 30, 0]);
    assert_eq!(cpu.i, 0x300);
    run(&mut cpu, 2);
    assert_eq!(cpu.regs[0], 20);
    assert_eq!(cpu.regs[1], 30);
    assert_eq!(cpu.regs[2], 30);
    assert_eq!(cpu.regs[3], 40);
    assert_eq!(cpu.i, 0x301);
}

#[test]
fn unsupported_instructions_are_fatal() {
    for word in [0x0123u16, 0x8008, 0x800F, 0xF0FF, 0xE0FF, 0x5121, 0x9121] {
        let mut cpu = boot(&[(word >> 8) as u8, word as u8]);
        let r = cpu.cycle(no_keys());
        assert!(matches!(r, Err(CpuError::UnsupportedInstruction { inst, pc: 0x200 }) if inst == word));
        assert_eq!(cpu.pc, 0x200);
    }
}

#[test]
fn return_on_empty_stack_is_fatal() {
    let mut cpu = boot(&[0x00, 0xEE]);
    assert!(matches!(cpu.cycle(no_keys()), Err(CpuError::StackUnderflow { pc: 0x200 })));
    assert_eq!(cpu.pc, 0x200);
}

#[test]
fn seventeenth_nested_call_is_fatal() {
    let mut cpu = boot(&[0x22, 0x00]);
    run(&mut cpu, 16);
    assert_eq!(cpu.stack.len(), 16);
    assert!(matches!(cpu.cycle(no_keys()), Err(CpuError::StackOverflow { pc: 0x200 })));
    assert_eq!(cpu.stack.len(), 16);
}

#[test]
fn fetch_past_memory_is_fatal() {
    let mut cpu = boot(&[0x1F, 0xFF]);
    run(&mut cpu, 1);
    assert!(matches!(cpu.cycle(no_keys()), Err(CpuError::AddressOutOfRange { pc: 0xFFF })));
}

#[test]
fn memory_transfers_past_end_are_fatal() {
    let mut cpu = boot(&[0xAF, 0xFE, 0xF0, 0x33, 0xF2, 0x55, 0xF2, 0x65]);
    run(&mut cpu, 1);
    let mem = cpu.memory;
    assert!(matches!(cpu.cycle(no_keys()), Err(CpuError::AddressOutOfRange { pc: 0x202 })));
    cpu.pc = 0x204;
    assert!(matches!(cpu.cycle(no_keys()), Err(CpuError::AddressOutOfRange { pc: 0x204 })));
    cpu.pc = 0x206;
    assert!(matches!(cpu.cycle(no_keys()), Err(CpuError::AddressOutOfRange { pc: 0x206 })));
    assert_eq!(cpu.memory, mem);
}

#[test]
fn export_colors_each_pixel() {
    let mut screen = Screen::new();
    screen.data[1] = true;
    let out = screen.export();
    assert_eq!(out.len(), 64 * 32 * 4);
    assert_eq!(&out[0..4], &[0x28, 0x2c, 0x34, 0xff]);
    assert_eq!(&out[4..8], &[0xab, 0xb2, 0xbf, 0xff]);
    assert_eq!(&out[8..12], &[0x28, 0x2c, 0x34, 0xff]);
}
