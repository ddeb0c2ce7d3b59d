use rip8::{Rip8, NANOS_PER_SECOND, RIP8_ROM_START};

type Machine = Rip8<fn() -> u8>;

/// Elapsed time in seconds, as the nanoseconds that `step` takes.
fn seconds(s: f64) -> u64 {
    (s * NANOS_PER_SECOND as f64).round() as u64
}

const ALWAYS_42: fn() -> u8 = || -> u8 { 0x42 };
const ALWAYS_ZERO: fn() -> u8 = || -> u8 { 0x00 };

fn rip8_with_rom(rom: &Vec<u8>) -> Machine {
    Rip8::from_rom(rom, ALWAYS_ZERO)
}

fn run(rip8: &mut Machine) {
    while rip8.step(seconds(0.0)) { }
}

fn run_rom_with_random(rom: &Vec<u8>, random: fn() -> u8) -> Machine {
    let mut rip8 = Rip8::from_rom(rom, random);
    run(&mut rip8);
    rip8
}

fn run_rom(rom: &Vec<u8>) -> Machine {
    run_rom_with_random(rom, ALWAYS_ZERO)
}

fn append_trailing_data_to_rom(code: &mut Vec<u8>, mut trailing_data: Vec<u8>) -> u16 {
    let sprite_length = trailing_data.len();
    let sprite_address = RIP8_ROM_START + (code.len() & 0xffff) as u16 + 2;

    code.append(&mut trailing_data);

    code.insert(0, 0xa0 | (sprite_address >> 8) as u8);
    code.insert(1, (sprite_address & 0xff) as u8);

    RIP8_ROM_START + (code.len() - sprite_length) as u16
}

#[test]
fn test_jp_zero() {
    let rom = vec![0x10, 0x00];

    let rip8 = run_rom(&rom);

    assert_eq!(rip8.pc(), 0x0002)
}

#[test]
fn test_jp_chained() {
    let rom = vec![0x12, 0x02, 0x10, 0x00];

    let rip8 = run_rom(&rom);

    assert_eq!(rip8.pc(), 0x0002)
}

#[test]
fn test_call_zero() {
    let rom = vec![0x20, 0x00];

    let rip8 = run_rom(&rom);

    assert_eq!(rip8.pc(), 0x0002);
    assert_eq!(
        u16::from_be_bytes([
            rip8.stack()[rip8.stack().len() - 2],
            rip8.stack()[rip8.stack().len() - 1],]),
        0x0202);
}

#[test]
fn test_ld_const() {
    let rom = vec![0x60, 0x12, 0x6c, 0x54];

    let rip8 = run_rom(&rom);

    assert_eq!(rip8.pc(), RIP8_ROM_START + 0x6);
    assert_eq!(rip8.v()[0x0], 0x12);
    assert_eq!(rip8.v()[0xc], 0x54);
}

#[test]
fn test_se_const_taken() {
    let rom = vec![0x60, 0x12, 0x30, 0x12];

    let rip8 = run_rom(&rom);

    assert_eq!(rip8.pc(), RIP8_ROM_START + 0x8);
    assert_eq!(rip8.v()[0x0], 0x12);
}

#[test]
fn test_se_const_not_taken() {
    let rom = vec![0x60, 0x12, 0x30, 0x13];

    let rip8 = run_rom(&rom);

    assert_eq!(rip8.pc(), RIP8_ROM_START + 0x6);
    assert_eq!(rip8.v()[0x0], 0x12);
}

#[test]
fn test_sne_const_taken() {
    let rom = vec![0x60, 0x12, 0x40, 0x13];

    let rip8 = run_rom(&rom);

    assert_eq!(rip8.pc(), RIP8_ROM_START + 0x8);
    assert_eq!(rip8.v()[0x0], 0x12);
}

#[test]
fn test_sne_const_not_taken() {
    let rom = vec![0x60, 0x12, 0x40, 0x12];

    let rip8 = run_rom(&rom);

    assert_eq!(rip8.pc(), RIP8_ROM_START + 0x6);
    assert_eq!(rip8.v()[0x0], 0x12);
}

#[test]
fn test_se_reg_taken() {
    let rom = vec![0x60, 0x12, 0x61, 0x12, 0x50, 0x10];

    let rip8 = run_rom(&rom);

    assert_eq!(rip8.pc(), RIP8_ROM_START + 0xa);
    assert_eq!(rip8.v()[0x0], 0x12);
    assert_eq!(rip8.v()[0x1], 0x12);
}

#[test]
fn test_se_reg_not_taken() {
    let rom = vec![0x60, 0x12, 0x61, 0x13, 0x50, 0x10];

    let rip8 = run_rom(&rom);

    assert_eq!(rip8.pc(), RIP8_ROM_START + 0x8);
    assert_eq!(rip8.v()[0x0], 0x12);
    assert_eq!(rip8.v()[0x1], 0x13);
}

#[test]
fn test_add_const() {
    let rom = vec![0x60, 0x12, 0x70, 0x21];

    let rip8 = run_rom(&rom);

    assert_eq!(rip8.pc(), RIP8_ROM_START + 0x6);
    assert_eq!(rip8.v()[0x0], 0x33);
}

#[test]
fn test_add_const_overflow() {
    let rom = vec![0x60, 0xff, 0x70, 0x01];

    let rip8 = run_rom(&rom);

    assert_eq!(rip8.pc(), RIP8_ROM_START + 0x6);
    assert_eq!(rip8.v()[0x0], 0x00);
}

#[test]
fn test_ld_reg() {
    let rom = vec![0x60, 0x12, 0x83, 0x00];

    let rip8 = run_rom(&rom);

    assert_eq!(rip8.pc(), RIP8_ROM_START + 0x6);
    assert_eq!(rip8.v()[0x0], 0x12);
    assert_eq!(rip8.v()[0x3], 0x12);
}

#[test]
fn test_or() {
    let rom = vec![0x60, 0x07, 0x61, 0xe0, 0x80, 0x11];

    let rip8 = run_rom(&rom);

    assert_eq!(rip8.pc(), RIP8_ROM_START + 0x8);
    assert_eq!(rip8.v()[0x0], 0xe7);
    assert_eq!(rip8.v()[0x1], 0xe0);
}

#[test]
fn test_and() {
    let rom = vec![0x68, 0x07, 0x6a, 0xec, 0x88, 0xa2];

    let rip8 = run_rom(&rom);

    assert_eq!(rip8.pc(), RIP8_ROM_START + 0x8);
    assert_eq!(rip8.v()[0x8], 0x04);
    assert_eq!(rip8.v()[0xa], 0xec);
}

#[test]
fn test_xor() {
    let rom = vec![0x6b, 0x1f, 0x6a, 0xf8, 0x8b, 0xa3];

    let rip8 = run_rom(&rom);

    assert_eq!(rip8.pc(), RIP8_ROM_START + 0x8);
    assert_eq!(rip8.v()[0xb], 0xe7);
    assert_eq!(rip8.v()[0xa], 0xf8);
}

#[test]
fn test_add_flags_without_carry() {
    let rom = vec![0x64, 0x78, 0x6e, 0x32, 0x84, 0xe4];

    let rip8 = run_rom(&rom);

    assert_eq!(rip8.pc(), RIP8_ROM_START + 0x8);
    assert_eq!(rip8.v()[0x4], 0xaa);
    assert_eq!(rip8.v()[0xe], 0x32);
    assert_eq!(rip8.v()[0xf], 0);
}

#[test]
fn test_add_flags_with_carry() {
    let rom = vec![0x64, 0xff, 0x6e, 0x01, 0x84, 0xe4];

    let rip8 = run_rom(&rom);

    assert_eq!(rip8.pc(), RIP8_ROM_START + 0x8);
    assert_eq!(rip8.v()[0x4], 0x00);
    assert_eq!(rip8.v()[0xe], 0x01);
    assert_eq!(rip8.v()[0xf], 1);
}

#[test]
fn test_sub_flags_without_borrow() {
    let rom = vec![0x64, 0x01, 0x63, 0x01, 0x84, 0x35];

    let rip8 = run_rom(&rom);

    assert_eq!(rip8.pc(), RIP8_ROM_START + 0x8);
    assert_eq!(rip8.v()[0x4], 0x00);
    assert_eq!(rip8.v()[0x3], 0x01);
    assert_eq!(rip8.v()[0xf], 1);
}

#[test]
fn test_sub_flags_with_borrow() {
    let rom = vec![0x64, 0x00, 0x63, 0x01, 0x84, 0x35];

    let rip8 = run_rom(&rom);

    assert_eq!(rip8.pc(), RIP8_ROM_START + 0x8);
    assert_eq!(rip8.v()[0x4], 0xff);
    assert_eq!(rip8.v()[0x3], 0x01);
    assert_eq!(rip8.v()[0xf], 0);
}

#[test]
fn test_shr_lsb_zero() {
    let rom = vec![0x60, 0x00, 0x62, 0x02, 0x80, 0x26];

    let rip8 = run_rom(&rom);

    assert_eq!(rip8.pc(), RIP8_ROM_START + 0x8);
    assert_eq!(rip8.v()[0x0], 0x01);
    assert_eq!(rip8.v()[0x2], 0x02);
    assert_eq!(rip8.v()[0xf], 0);
}

#[test]
fn test_shr_lsb_set() {
    let rom = vec![0x60, 0x00, 0x62, 0x81, 0x80, 0x26];

    let rip8 = run_rom(&rom);

    assert_eq!(rip8.pc(), RIP8_ROM_START + 0x8);
    assert_eq!(rip8.v()[0x0], 0x40);
    assert_eq!(rip8.v()[0x2], 0x81);
    assert_eq!(rip8.v()[0xf], 1);
}

#[test]
fn test_shr_overflow() {
    let rom = vec![0x60, 0x00, 0x62, 0x01, 0x80, 0x26];

    let rip8 = run_rom(&rom);

    assert_eq!(rip8.pc(), RIP8_ROM_START + 0x8);
    assert_eq!(rip8.v()[0x0], 0x00);
    assert_eq!(rip8.v()[0x2], 0x01);
    assert_eq!(rip8.v()[0xf], 1);
}

#[test]
fn test_subn_without_borrow() {
    let rom = vec![0x60, 0x00, 0x61, 0x01, 0x80, 0x17];

    let rip8 = run_rom(&rom);

    assert_eq!(rip8.pc(), RIP8_ROM_START + 0x8);
    assert_eq!(rip8.v()[0x0], 0x01);
    assert_eq!(rip8.v()[0x1], 0x01);
    assert_eq!(rip8.v()[0xf], 1);
}

#[test]
fn test_subn_with_borrow() {
    let rom = vec![0x60, 0x02, 0x61, 0x01, 0x80, 0x17];

    let rip8 = run_rom(&rom);

    assert_eq!(rip8.pc(), RIP8_ROM_START + 0x8);
    assert_eq!(rip8.v()[0x0], 0xff);
    assert_eq!(rip8.v()[0x1], 0x01);
    assert_eq!(rip8.v()[0xf], 0);
}

#[test]
fn test_shl_msb_zero() {
    let rom = vec![0x60, 0x00, 0x61, 0x08, 0x80, 0x1e];

    let rip8 = run_rom(&rom);

    assert_eq!(rip8.pc(), RIP8_ROM_START + 0x8);
    assert_eq!(rip8.v()[0x0], 0x10);
    assert_eq!(rip8.v()[0x1], 0x08);
    assert_eq!(rip8.v()[0xf], 0);
}

#[test]
fn test_shl_msb_set() {
    let rom = vec![0x60, 0x00, 0x61, 0x88, 0x80, 0x1e];

    let rip8 = run_rom(&rom);

    assert_eq!(rip8.pc(), RIP8_ROM_START + 0x8);
    assert_eq!(rip8.v()[0x0], 0x10);
    assert_eq!(rip8.v()[0x1], 0x88);
    assert_eq!(rip8.v()[0xf], 1);
}

#[test]
fn test_shl_overflow() {
    let rom = vec![0x60, 0x00, 0x61, 0x80, 0x80, 0x1e];

    let rip8 = run_rom(&rom);

    assert_eq!(rip8.pc(), RIP8_ROM_START + 0x8);
    assert_eq!(rip8.v()[0x0], 0x00);
    assert_eq!(rip8.v()[0x1], 0x80);
    assert_eq!(rip8.v()[0xf], 1);
}

#[test]
fn test_sne_reg_taken() {
    let rom = vec![0x60, 0x44, 0x61, 0x88, 0x90, 0x10];

    let rip8 = run_rom(&rom);

    assert_eq!(rip8.pc(), RIP8_ROM_START + 0xa);
    assert_eq!(rip8.v()[0x0], 0x44);
    assert_eq!(rip8.v()[0x1], 0x88);
}

#[test]
fn test_sne_reg_not_taken() {
    let rom = vec![0x60, 0x44, 0x61, 0x44, 0x90, 0x10];

    let rip8 = run_rom(&rom);

    assert_eq!(rip8.pc(), RIP8_ROM_START + 0x8);
    assert_eq!(rip8.v()[0x0], 0x44);
    assert_eq!(rip8.v()[0x1], 0x44);
}

#[test]
fn test_ld_addr() {
    let rom = vec![0xa1, 0x23];

    let rip8 = run_rom(&rom);

    assert_eq!(rip8.pc(), RIP8_ROM_START + 0x4);
    assert_eq!(rip8.i(), 0x0123);
}

#[test]
fn test_jp_offset() {
    let rom = vec![0x60, 0x12, 0xb3, 0x21];

    let rip8 = run_rom(&rom);

    assert_eq!(rip8.pc(), 0x335);
    assert_eq!(rip8.v()[0], 0x12);
}

#[test]
fn test_rnd_fixed() {
    let rom = vec![0xc0, 0xff, 0xc1, 0x61];

    let rip8 = run_rom_with_random(&rom, ALWAYS_42);

    assert_eq!(rip8.pc(), RIP8_ROM_START + 0x6);
    assert_eq!(rip8.v()[0], 0x42);
    assert_eq!(rip8.v()[1], 0x40);
}

#[test]
fn test_draw_stripes() {
    let mut rom: Vec<u8> = vec![0x60, 0x00, 0xd0, 0x08, 0x00, 0x00];
    let sprite: Vec<u8> = vec![0xaa, 0x55, 0xaa, 0x55, 0xaa, 0x55, 0xaa, 0x55];
    let stop_address = append_trailing_data_to_rom(&mut rom, sprite);

    let rip8 = run_rom(&rom);

    assert_eq!(rip8.i(), stop_address);
    assert_eq!(rip8.pc(), stop_address);
    for y in 0..32 {
        for x in 0..64 {
            if x < 8 && y < 8 && x % 2 == y % 2 {
                assert!(rip8.get_display_spot(x, y));
            } else {
                assert!(!rip8.get_display_spot(x, y));
            }
        }
    }
    assert_eq!(rip8.v()[0xf], 0);
}

#[test]
fn test_draw_unset_spot() {
    let mut rom: Vec<u8> = vec![0x60, 0x00, 0xd0, 0x08, 0xd0, 0x08, 0x00, 0x00];
    let sprite: Vec<u8> = vec![0xaa, 0x55, 0xaa, 0x55, 0xaa, 0x55, 0xaa, 0x55];
    let stop_address = append_trailing_data_to_rom(&mut rom, sprite);

    let rip8 = run_rom(&rom);

    assert_eq!(rip8.i(), stop_address);
    assert_eq!(rip8.pc(), stop_address);
    for y in 0..32 {
        for x in 0..64 {
            assert!(!rip8.get_display_spot(x, y));
        }
    }
    assert_eq!(rip8.v()[0xf], 1);
}

#[test]
fn test_draw_stripes_offset() {
    let mut rom = vec![0x61, 0x01, 0xd1, 0x18, 0x00, 0x00];
    let sprite = vec![0xaa, 0x55, 0xaa, 0x55, 0xaa, 0x55, 0xaa, 0x55];
    let stop_address = append_trailing_data_to_rom(&mut rom, sprite);

    let rip8 = run_rom(&rom);

    assert_eq!(rip8.i(), stop_address);
    assert_eq!(rip8.pc(), stop_address);
    for y in 0..32 {
        for x in 0..64 {
            if x > 0 && x < 9 && y > 0 && y < 9 && x % 2 == y % 2 {
                assert!(rip8.get_display_spot(x, y));
            } else {
                assert!(!rip8.get_display_spot(x, y));
            }
        }
    }
}

#[test]
fn test_draw_clipped() {
    let mut rom = vec![0x61, 0x39, 0x62, 0x19, 0xd1, 0x28, 0x00, 0x00];
    let sprite = vec![0xff, 0xff, 0xff, 0xff, 0xff, 0xff, 0xff, 0xff];
    let stop_address = append_trailing_data_to_rom(&mut rom, sprite);

    let rip8 = run_rom(&rom);

    assert_eq!(rip8.i(), stop_address);
    assert_eq!(rip8.pc(), stop_address);
    for y in 0..32 {
        for x in 0..64 {
            if y > 24 && x > 56 {
                assert!(rip8.get_display_spot(x, y));
            } else {
                assert!(!rip8.get_display_spot(x, y));
            }
        }
    }
}

#[test]
fn test_skp_taken() {
    let rom = vec![0x63, 0x01, 0xe3, 0x9e, 0x00, 0x00];

    let mut rip8 = rip8_with_rom(&rom);
    rip8.set_keydown(1, true);
    run(&mut rip8);

    assert_eq!(rip8.pc(), RIP8_ROM_START + rom.len() as u16 + 2);
}

#[test]
fn test_skp_not_taken() {
    let rom = vec![0x63, 0x01, 0xe3, 0x9e, 0x00, 0x00];

    let rip8 = run_rom(&rom);

    assert_eq!(rip8.pc(), RIP8_ROM_START + rom.len() as u16);
}

#[test]
fn test_sknp_taken() {
    let rom = vec![0x62, 0x05, 0xe2, 0xa1, 0x00, 0x00];

    let rip8 = run_rom(&rom);

    assert_eq!(rip8.pc(), RIP8_ROM_START + rom.len() as u16 + 2);
}

#[test]
fn test_sknp_not_taken() {
    let rom = vec![0x62, 0x00, 0xe2, 0xa1, 0x00, 0x00];

    let mut rip8 = rip8_with_rom(&rom);
    rip8.set_keydown(0, true);
    run(&mut rip8);

    assert_eq!(rip8.pc(), RIP8_ROM_START + rom.len() as u16);
}

#[test]
fn test_ld_reg_dt() {
    let rom = vec![0x60, 0xff, 0xf0, 0x07, 0x00, 0x00];

    let rip8 = run_rom(&rom);

    assert_eq!(rip8.pc(), RIP8_ROM_START + rom.len() as u16);
    assert_eq!(rip8.v()[0], rip8.dt());
}

#[test]
fn test_ld_input() {
    let rom = vec![0xf0, 0x0a, 0xff, 0x0a, 0x00, 0x00];

    let mut rip8 = rip8_with_rom(&rom);

    // no matter how much we run, it should stop until it receives input
    for _ in 0..50 {
        rip8.step(seconds(0.1));
    }
    rip8.set_keydown(0xf, true);
    rip8.step(seconds(0.1));
    rip8.set_keydown(0xf, false);
    for _ in 0..50 {
        rip8.step(seconds(0.1));
    }
    rip8.set_keydown(0x0, true);
    rip8.step(seconds(0.1));
    rip8.set_keydown(0x0, false);
    // finish running
    run(&mut rip8);

    assert_eq!(rip8.pc(), RIP8_ROM_START + rom.len() as u16);
    assert_eq!(rip8.v()[0x0], 0xf);
    assert_eq!(rip8.v()[0xf], 0x0);
}

#[test]
fn test_ld_dt_reg() {
    let rom = vec![0x61, 0x42, 0xf1, 0x15, 0x00, 0x00];

    let rip8 = run_rom_with_random(&rom, ALWAYS_42);

    assert_eq!(rip8.pc(), RIP8_ROM_START + rom.len() as u16);
    assert_eq!(rip8.dt(), rip8.v()[0x1]);
    assert_eq!(rip8.v()[0x1], 0x42);
}

#[test]
fn test_ld_st_reg() {
    let rom = vec![0x61, 0x42, 0xf1, 0x18, 0x00, 0x00];

    let rip8 = run_rom(&rom);

    assert_eq!(rip8.pc(), RIP8_ROM_START + rom.len() as u16);
    assert_eq!(rip8.st(), rip8.v()[0x1]);
    assert_eq!(rip8.v()[0x1], 0x42);
}

#[test]
fn test_add_i_reg() {
    let rom = vec![0x61, 0x32, 0xa1, 0x23, 0xf1, 0x1e, 0x00, 0x00];

    let rip8 = run_rom(&rom);

    assert_eq!(rip8.pc(), RIP8_ROM_START + rom.len() as u16);
    assert_eq!(rip8.v()[0x1], 0x32);
    assert_eq!(rip8.i(), 0x155);
}

#[test]
fn test_ld_sprite_0() {
    let rom = vec![0x60, 0x00, 0xf0, 0x29, 0x00, 0x00];

    let rip8 = run_rom(&rom);

    assert_eq!(rip8.pc(), RIP8_ROM_START + rom.len() as u16);
    assert_eq!(rip8.memory()[rip8.i() as usize + 0], 0xf0);
    assert_eq!(rip8.memory()[rip8.i() as usize + 1], 0x90);
    assert_eq!(rip8.memory()[rip8.i() as usize + 2], 0x90);
    assert_eq!(rip8.memory()[rip8.i() as usize + 3], 0x90);
    assert_eq!(rip8.memory()[rip8.i() as usize + 4], 0xf0);
}

#[test]
fn test_ld_sprite_1() {
    let rom = vec![0x60, 0x01, 0xf0, 0x29, 0x00, 0x00];

    let rip8 = run_rom(&rom);

    assert_eq!(rip8.pc(), RIP8_ROM_START + rom.len() as u16);
    assert_eq!(rip8.memory()[rip8.i() as usize + 0], 0x20);
    assert_eq!(rip8.memory()[rip8.i() as usize + 1], 0x60);
    assert_eq!(rip8.memory()[rip8.i() as usize + 2], 0x20);
    assert_eq!(rip8.memory()[rip8.i() as usize + 3], 0x20);
    assert_eq!(rip8.memory()[rip8.i() as usize + 4], 0x70);
}

#[test]
fn test_ld_sprite_2() {
    let rom = vec![0x60, 0x02, 0xf0, 0x29, 0x00, 0x00];

    let rip8 = run_rom(&rom);

    assert_eq!(rip8.pc(), RIP8_ROM_START + rom.len() as u16);
    assert_eq!(rip8.memory()[rip8.i() as usize + 0], 0xf0);
    assert_eq!(rip8.memory()[rip8.i() as usize + 1], 0x10);
    assert_eq!(rip8.memory()[rip8.i() as usize + 2], 0xf0);
    assert_eq!(rip8.memory()[rip8.i() as usize + 3], 0x80);
    assert_eq!(rip8.memory()[rip8.i() as usize + 4], 0xf0);
}

#[test]
fn test_ld_sprite_3() {
    let rom = vec![0x60, 0x03, 0xf0, 0x29, 0x00, 0x00];

    let rip8 = run_rom(&rom);

    assert_eq!(rip8.pc(), RIP8_ROM_START + rom.len() as u16);
    assert_eq!(rip8.memory()[rip8.i() as usize + 0], 0xf0);
    assert_eq!(rip8.memory()[rip8.i() as usize + 1], 0x10);
    assert_eq!(rip8.memory()[rip8.i() as usize + 2], 0xf0);
    assert_eq!(rip8.memory()[rip8.i() as usize + 3], 0x10);
    assert_eq!(rip8.memory()[rip8.i() as usize + 4], 0xf0);
}

#[test]
fn test_ld_sprite_4() {
    let rom = vec![0x60, 0x04, 0xf0, 0x29, 0x00, 0x00];

    let rip8 = run_rom(&rom);

    assert_eq!(rip8.pc(), RIP8_ROM_START + rom.len() as u16);
    assert_eq!(rip8.memory()[rip8.i() as usize + 0], 0x90);
    assert_eq!(rip8.memory()[rip8.i() as usize + 1], 0x90);
    assert_eq!(rip8.memory()[rip8.i() as usize + 2], 0xf0);
    assert_eq!(rip8.memory()[rip8.i() as usize + 3], 0x10);
    assert_eq!(rip8.memory()[rip8.i() as usize + 4], 0x10);
}

#[test]
fn test_ld_sprite_5() {
    let rom = vec![0x60, 0x05, 0xf0, 0x29, 0x00, 0x00];

    let rip8 = run_rom(&rom);

    assert_eq!(rip8.pc(), RIP8_ROM_START + rom.len() as u16);
    assert_eq!(rip8.memory()[rip8.i() as usize + 0], 0xf0);
    assert_eq!(rip8.memory()[rip8.i() as usize + 1], 0x80);
    assert_eq!(rip8.memory()[rip8.i() as usize + 2], 0xf0);
    assert_eq!(rip8.memory()[rip8.i() as usize + 3], 0x10);
    assert_eq!(rip8.memory()[rip8.i() as usize + 4], 0xf0);
}

#[test]
fn test_ld_sprite_6() {
    let rom = vec![0x60, 0x06, 0xf0, 0x29, 0x00, 0x00];

    let rip8 = run_rom(&rom);

    assert_eq!(rip8.pc(), RIP8_ROM_START + rom.len() as u16);
    assert_eq!(rip8.memory()[rip8.i() as usize + 0], 0xf0);
    assert_eq!(rip8.memory()[rip8.i() as usize + 1], 0x80);
    assert_eq!(rip8.memory()[rip8.i() as usize + 2], 0xf0);
    assert_eq!(rip8.memory()[rip8.i() as usize + 3], 0x90);
    assert_eq!(rip8.memory()[rip8.i() as usize + 4], 0xf0);
}

#[test]
fn test_ld_sprite_7() {
    let rom = vec![0x60, 0x07, 0xf0, 0x29, 0x00, 0x00];

    let rip8 = run_rom(&rom);

    assert_eq!(rip8.pc(), RIP8_ROM_START + rom.len() as u16);
    assert_eq!(rip8.memory()[rip8.i() as usize + 0], 0xf0);
    assert_eq!(rip8.memory()[rip8.i() as usize + 1], 0x10);
    assert_eq!(rip8.memory()[rip8.i() as usize + 2], 0x20);
    assert_eq!(rip8.memory()[rip8.i() as usize + 3], 0x40);
    assert_eq!(rip8.memory()[rip8.i() as usize + 4], 0x40);
}

#[test]
fn test_ld_sprite_8() {
    let rom = vec![0x60, 0x08, 0xf0, 0x29, 0x00, 0x00];

    let rip8 = run_rom(&rom);

    assert_eq!(rip8.pc(), RIP8_ROM_START + rom.len() as u16);
    assert_eq!(rip8.memory()[rip8.i() as usize + 0], 0xf0);
    assert_eq!(rip8.memory()[rip8.i() as usize + 1], 0x90);
    assert_eq!(rip8.memory()[rip8.i() as usize + 2], 0xf0);
    assert_eq!(rip8.memory()[rip8.i() as usize + 3], 0x90);
    assert_eq!(rip8.memory()[rip8.i() as usize + 4], 0xf0);
}

#[test]
fn test_ld_sprite_9() {
    let rom = vec![0x60, 0x09, 0xf0, 0x29, 0x00, 0x00];

    let rip8 = run_rom(&rom);

    assert_eq!(rip8.pc(), RIP8_ROM_START + rom.len() as u16);
    assert_eq!(rip8.memory()[rip8.i() as usize + 0], 0xf0);
    assert_eq!(rip8.memory()[rip8.i() as usize + 1], 0x90);
    assert_eq!(rip8.memory()[rip8.i() as usize + 2], 0xf0);
    assert_eq!(rip8.memory()[rip8.i() as usize + 3], 0x10);
    assert_eq!(rip8.memory()[rip8.i() as usize + 4], 0xf0);
}

#[test]
fn test_ld_sprite_a() {
    let rom = vec![0x60, 0x0a, 0xf0, 0x29, 0x00, 0x00];

    let rip8 = run_rom(&rom);

    assert_eq!(rip8.pc(), RIP8_ROM_START + rom.len() as u16);
    assert_eq!(rip8.memory()[rip8.i() as usize + 0], 0xf0);
    assert_eq!(rip8.memory()[rip8.i() as usize + 1], 0x90);
    assert_eq!(rip8.memory()[rip8.i() as usize + 2], 0xf0);
    assert_eq!(rip8.memory()[rip8.i() as usize + 3], 0x90);
    assert_eq!(rip8.memory()[rip8.i() as usize + 4], 0x90);
}

#[test]
fn test_ld_sprite_b() {
    let rom = vec![0x60, 0x0b, 0xf0, 0x29, 0x00, 0x00];

    let rip8 = run_rom(&rom);

    assert_eq!(rip8.pc(), RIP8_ROM_START + rom.len() as u16);
    assert_eq!(rip8.memory()[rip8.i() as usize + 0], 0xe0);
    assert_eq!(rip8.memory()[rip8.i() as usize + 1], 0x90);
    assert_eq!(rip8.memory()[rip8.i() as usize + 2], 0xe0);
    assert_eq!(rip8.memory()[rip8.i() as usize + 3], 0x90);
    assert_eq!(rip8.memory()[rip8.i() as usize + 4], 0xe0);
}

#[test]
fn test_ld_sprite_c() {
    let rom = vec![0x60, 0x0c, 0xf0, 0x29, 0x00, 0x00];

    let rip8 = run_rom(&rom);

    assert_eq!(rip8.pc(), RIP8_ROM_START + rom.len() as u16);
    assert_eq!(rip8.memory()[rip8.i() as usize + 0], 0xf0);
    assert_eq!(rip8.memory()[rip8.i() as usize + 1], 0x80);
    assert_eq!(rip8.memory()[rip8.i() as usize + 2], 0x80);
    assert_eq!(rip8.memory()[rip8.i() as usize + 3], 0x80);
    assert_eq!(rip8.memory()[rip8.i() as usize + 4], 0xf0);
}

#[test]
fn test_ld_sprite_d() {
    let rom = vec![0x60, 0x0d, 0xf0, 0x29, 0x00, 0x00];

    let rip8 = run_rom(&rom);

    assert_eq!(rip8.pc(), RIP8_ROM_START + rom.len() as u16);
    assert_eq!(rip8.memory()[rip8.i() as usize + 0], 0xe0);
    assert_eq!(rip8.memory()[rip8.i() as usize + 1], 0x90);
    assert_eq!(rip8.memory()[rip8.i() as usize + 2], 0x90);
    assert_eq!(rip8.memory()[rip8.i() as usize + 3], 0x90);
    assert_eq!(rip8.memory()[rip8.i() as usize + 4], 0xe0);
}

#[test]
fn test_ld_sprite_e() {
    let rom = vec![0x60, 0x0e, 0xf0, 0x29, 0x00, 0x00];

    let rip8 = run_rom(&rom);

    assert_eq!(rip8.pc(), RIP8_ROM_START + rom.len() as u16);
    assert_eq!(rip8.memory()[rip8.i() as usize + 0], 0xf0);
    assert_eq!(rip8.memory()[rip8.i() as usize + 1], 0x80);
    assert_eq!(rip8.memory()[rip8.i() as usize + 2], 0xf0);
    assert_eq!(rip8.memory()[rip8.i() as usize + 3], 0x80);
    assert_eq!(rip8.memory()[rip8.i() as usize + 4], 0xf0);
}

#[test]
fn test_ld_sprite_f() {
    let rom = vec![0x60, 0x0f, 0xf0, 0x29, 0x00, 0x00];

    let rip8 = run_rom(&rom);

    assert_eq!(rip8.pc(), RIP8_ROM_START + rom.len() as u16);
    assert_eq!(rip8.memory()[rip8.i() as usize + 0], 0xf0);
    assert_eq!(rip8.memory()[rip8.i() as usize + 1], 0x80);
    assert_eq!(rip8.memory()[rip8.i() as usize + 2], 0xf0);
    assert_eq!(rip8.memory()[rip8.i() as usize + 3], 0x80);
    assert_eq!(rip8.memory()[rip8.i() as usize + 4], 0x80);
}

#[test]
fn test_ld_bcd() {
    let rom = vec![
        0x60, 0xc6, // v0 = 0xc6
        0x61, 0x4c, // v1 = 0x4c
        0x62, 0xfe, // v2 = 0xfe
        0x63, 0x03, // v3 = 0x03
        0x64, 0x03, // v4 = 0x03
        0xa6, 0x00, // i = 0x300
        0xf0, 0x33, // *i = bcd(v0) = 198
        0xf4, 0x1e, // i += 3
        0xf1, 0x33, // *i = bcd(v1) = 76
        0xf4, 0x1e, // i += 3
        0xf2, 0x33, // *i = bcd(v2) = 254
        0xf4, 0x1e, // i += 3
        0xf3, 0x33, // *i = bcd(v3) = 3
        0xf4, 0x1e, // i += 3
        0x00, 0x00
    ];

    let rip8 = run_rom(&rom);

    assert_eq!(rip8.pc(), RIP8_ROM_START + rom.len() as u16);
    assert_eq!(rip8.i(), 0x60c);
    assert_eq!(rip8.memory()[rip8.i() as usize - 01], 0x03);
    assert_eq!(rip8.memory()[rip8.i() as usize - 02], 0x00);
    assert_eq!(rip8.memory()[rip8.i() as usize - 03], 0x00);

    assert_eq!(rip8.memory()[rip8.i() as usize - 04], 0x04);
    assert_eq!(rip8.memory()[rip8.i() as usize - 05], 0x05);
    assert_eq!(rip8.memory()[rip8.i() as usize - 06], 0x02);

    assert_eq!(rip8.memory()[rip8.i() as usize - 07], 0x06);
    assert_eq!(rip8.memory()[rip8.i() as usize - 08], 0x07);
    assert_eq!(rip8.memory()[rip8.i() as usize - 09], 0x00);

    assert_eq!(rip8.memory()[rip8.i() as usize - 10], 0x08);
    assert_eq!(rip8.memory()[rip8.i() as usize - 11], 0x09);
    assert_eq!(rip8.memory()[rip8.i() as usize - 12], 0x01);
}

#[test]
fn test_store_registers() {
    let rom = vec![
        0x60, 0xff,
        0x61, 0x88,
        0x62, 0x44,
        0x63, 0x00,
        0xa6, 0x00,
        0xf3, 0x55,
        0x00, 0x00
    ];

    let rip8 = run_rom(&rom);

    assert_eq!(rip8.pc(), RIP8_ROM_START + rom.len() as u16);
    assert_eq!(rip8.i(), 0x600 + 3 + 1);
    assert_eq!(rip8.memory()[rip8.i() as usize - 01], 0x00);
    assert_eq!(rip8.memory()[rip8.i() as usize - 02], 0x44);
    assert_eq!(rip8.memory()[rip8.i() as usize - 03], 0x88);
    assert_eq!(rip8.memory()[rip8.i() as usize - 04], 0xff);
}

#[test]
fn test_load_registers() {
    let mut rom = vec![
        0x64, 0xff,
        0xf3, 0x65,
        0x00, 0x00
    ];
    let trailer = vec![0x42, 0x43, 0x44, 0x45];
    let stop_address = append_trailing_data_to_rom(&mut rom, trailer);

    let rip8 = run_rom(&rom);

    assert_eq!(rip8.pc(), stop_address);
    assert_eq!(rip8.i(), stop_address + 4);
    assert_eq!(rip8.v()[0], 0x42);
    assert_eq!(rip8.v()[1], 0x43);
    assert_eq!(rip8.v()[2], 0x44);
    assert_eq!(rip8.v()[3], 0x45);
}

#[test]
fn test_cls() {
    let rom = vec![0x00, 0xe0, 0x00, 0x00];

    let rip8 = run_rom(&rom);

    assert_eq!(rip8.pc(), RIP8_ROM_START + rom.len() as u16);
    for x in 0..64 {
        for y in 0..32 {
            assert!(!rip8.get_display_spot(x, y));
        }
    }
}

#[test]
fn test_draw_then_cls() {
    let rom = vec![
        0x60, 0x00, // v0 = 0
        0xf0, 0x29, // i = digits[v0]
        0xd0, 0x05, // draw i..i[5] at (v0, v0)
        0x00, 0xe0, // cls
        0x00, 0x00
    ];

    let rip8 = run_rom(&rom);

    assert_eq!(rip8.pc(), RIP8_ROM_START + rom.len() as u16);
    for x in 0..64 {
        for y in 0..32 {
            assert!(!rip8.get_display_spot(x, y));
        }
    }
}

#[test]
fn test_call_ret() {
    let rom = vec![0x22, 0x04, 0x00, 0x00, 0x00, 0xee];

    let rip8 = run_rom(&rom);

    assert_eq!(rip8.pc(), RIP8_ROM_START + 4);
    assert_eq!(rip8.stack().len(), 0);
}

#[test]
fn test_dt_counts_down_at_60hz() {
    let rom = vec![0x60, 0xff, 0xf0, 0x15, 0x12, 0x04];

    let mut rip8 = rip8_with_rom(&rom);
    rip8.step(seconds(0.0));
    rip8.step(seconds(0.0));
    assert_eq!(rip8.dt(), 0xff);
    rip8.step(seconds(1.0001));
    assert_eq!(rip8.dt(), 0xc3);
}
