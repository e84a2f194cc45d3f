//! Machine scenarios: the memory map, I/O registers, banking and frames.

use vintage::cpu::{Bus, Cpu};
use vintage::machine::{Machine, CYCLES_PER_FRAME, FB_LEN};

fn machine() -> Machine {
    Machine::new([0xEA; 0x2000])
}

#[test]
fn memory_map_decodes_all_regions() {
    let mut m = machine();
    m.write(0x0000, 0x11);
    m.write(0x3FFF, 0x22);
    m.write(0x4000, 0x33);
    m.write(0x57FF, 0x44);
    m.write(0x6000, 0x55);
    m.write(0xDFFF, 0x66);
    assert_eq!(m.read(0x0000), 0x11);
    assert_eq!(m.read(0x3FFF), 0x22);
    assert_eq!(m.read(0x4000), 0x33);
    assert_eq!(m.read(0x57FF), 0x44);
    assert_eq!(m.read(0x6000), 0x55);
    assert_eq!(m.read(0xDFFF), 0x66);
    assert_eq!(m.read(0xE000), 0xEA);
    assert_eq!(m.read(0xFFFF), 0xEA);
}

#[test]
fn rom_is_write_protected() {
    let mut m = machine();
    m.write(0xE000, 0x42);
    m.write(0xFFFC, 0x99);
    assert_eq!(m.read(0xE000), 0xEA);
    assert_eq!(m.read(0xFFFC), 0xEA);
}

#[test]
fn vectors_live_in_rom() {
    let mut rom = [0; 0x2000];
    rom[0x1FFC] = 0x00;
    rom[0x1FFD] = 0xE0;
    let mut m = Machine::new(rom);
    assert_eq!(m.read(0xFFFC), 0x00);
    assert_eq!(m.read(0xFFFD), 0xE0);
}

#[test]
fn framebuffer_is_memory_mapped() {
    let mut m = Machine::new([0xEA; 0x2000]);
    m.write(0x4000, 0xFF);
    m.write(0x57FF, 0x81);
    assert_eq!(m.read(0x4000), 0xFF);
    assert_eq!(m.read(0x57FF), 0x81);
    // fb() is the display plane: the fb is copied into it at each vsync
    // by compose_sprites, so one run_frame makes the writes visible.
    let mut cpu = Cpu::new();
    cpu.reset(&mut m);
    m.run_frame(&mut cpu);
    assert_eq!(m.fb()[0], 0xFF);
    assert_eq!(m.fb()[FB_LEN as usize - 1], 0x81);
}

#[test]
fn keyboard_read_clears() {
    let mut m = machine();
    m.key(b'A');
    assert_eq!(m.read(0x5800), b'A');
    assert_eq!(m.read(0x5800), 0);
}

#[test]
fn keyboard_newest_key_wins() {
    let mut m = machine();
    m.key(b'A');
    m.key(b'Z');
    assert_eq!(m.read(0x5800), b'Z');
}

#[test]
fn frame_counter_ticks_and_reads_little_endian() {
    let mut m = machine();
    for _ in 0..3 {
        m.tick_frame();
    }
    assert_eq!(m.read(0x5802), 3);
    assert_eq!(m.read(0x5803), 0);

    // wraps at 65536 frames (~18 minutes of uptime)
    for _ in 0..(0x10000 - 3) {
        m.tick_frame();
    }
    assert_eq!(m.read(0x5802), 0);
    assert_eq!(m.read(0x5803), 0);
    m.tick_frame();
    assert_eq!(m.read(0x5802), 1);
}

#[test]
fn palette_register_roundtrip() {
    let mut m = machine();
    m.write(0x5804, 2);
    assert_eq!(m.read(0x5804), 2);
    assert_eq!(m.palette(), 2);
}

#[test]
fn random_reads_are_pseudorandom() {
    let mut m = machine();
    let mut values = [0u8; 64];
    for v in values.iter_mut() {
        *v = m.read(0x5805);
    }
    let distinct = {
        let mut v = values.to_vec();
        v.sort_unstable();
        v.dedup();
        v.len()
    };
    assert!(distinct >= 20, "only {distinct} distinct values in 64 reads");
}

#[test]
fn beeper_register_roundtrip() {
    let mut m = machine();
    m.write(0x5807, 100);
    assert_eq!(m.read(0x5807), 100);
    assert_eq!(m.beeper_period(), 100);
    m.write(0x5807, 0);
    assert_eq!(m.beeper_period(), 0);
}

#[test]
fn run_frame_consumes_budget_and_ticks() {
    let mut m = machine();
    let mut cpu = Cpu::new();
    cpu.reset(&mut m);
    m.run_frame(&mut cpu);
    assert_eq!(m.read(0x5802), 1);
    assert!(
        cpu.cycles >= CYCLES_PER_FRAME as u64
            && cpu.cycles < CYCLES_PER_FRAME as u64 + 8,
        "cycles = {}",
        cpu.cycles
    );
}

#[test]
fn unmapped_io_holes_read_zero_and_ignore_writes() {
    let mut m = machine();
    assert_eq!(m.read(0x5801), 0);
    assert_eq!(m.read(0x5FFF), 0);
    m.write(0x5801, 0xFF);
    m.write(0x5FFF, 0xFF);
    assert_eq!(m.read(0x5801), 0);
    assert_eq!(m.read(0x5FFF), 0);
}

#[test]
fn bank_register_selects_the_rom_window() {
    let mut m = Machine::with_banks(vec![[0xAA; 0x2000], [0xBB; 0x2000]]);
    assert_eq!(m.read(0xE000), 0xAA);
    m.write(0x5806, 1);
    assert_eq!(m.read(0x5806), 1);
    assert_eq!(m.read(0xE000), 0xBB);
    m.write(0x5806, 0);
    assert_eq!(m.read(0xE000), 0xAA);
}

#[test]
fn bank_window_stays_write_protected() {
    let mut m = Machine::with_banks(vec![[0xEA; 0x2000], [0x42; 0x2000]]);
    m.write(0x5806, 1);
    m.write(0xE000, 0x99);
    assert_eq!(m.read(0xE000), 0x42);
}

#[test]
fn out_of_range_bank_writes_are_ignored() {
    let mut m = Machine::with_banks(vec![[0xEA; 0x2000], [0x42; 0x2000]]);
    m.write(0x5806, 7);
    assert_eq!(m.read(0x5806), 0);
    assert_eq!(m.read(0xE000), 0xEA);
}

#[test]
fn frames_never_raise_an_nmi() {
    let mut m = machine();
    let mut cpu = Cpu::new();
    cpu.reset(&mut m);
    for _ in 0..3 {
        m.run_frame(&mut cpu);
        assert!(!cpu.nmi_pending);
    }
    assert_eq!(m.read(0x5802), 3, "three frames ticked");
}

#[test]
fn random_follows_the_left_shifting_lfsr() {
    let mut m = machine();
    // $ACE1 -> $59EF -> $B3DE -> $6791: shift left, XOR $2D when bit 15 falls out.
    assert_eq!(m.read(0x5805), 0xEF);
    assert_eq!(m.read(0x5805), 0xDE);
    assert_eq!(m.read(0x5805), 0x91);
}

#[test]
fn fresh_machine_reads_zero_but_for_random_and_rom() {
    let mut m = Machine::new([0x5A; 0x2000]);
    for addr in [0x0000u16, 0x3FFF, 0x4000, 0x57FF, 0x5800, 0x5801, 0x5802, 0x5803, 0x5804, 0x5806, 0x5807, 0x5808, 0x580F, 0x5810, 0x5811, 0x5FFF, 0x6000, 0xDFFF] {
        assert_eq!(m.read(addr), 0, "${addr:04X}");
    }
    assert_eq!(m.read(0xE000), 0x5A);
    assert_eq!(m.read(0xFFFF), 0x5A);
    assert!(m.fb().iter().all(|&b| b == 0));
    assert_eq!(m.palette(), 0);
    assert_eq!(m.beeper_period(), 0);
}

#[test]
fn run_frames_is_run_frame_repeated() {
    let mut a = machine();
    let mut ca = Cpu::new();
    ca.reset(&mut a);
    let mut b = machine();
    let mut cb = Cpu::new();
    cb.reset(&mut b);
    a.run_frames(&mut ca, 3);
    for _ in 0..3 {
        b.run_frame(&mut cb);
    }
    assert_eq!(ca, cb);
    assert_eq!(a.read(0x5802), 3);
    assert_eq!(b.read(0x5802), 3);
    assert!(ca.cycles >= 3 * CYCLES_PER_FRAME as u64);
}

#[test]
fn host_accessors_match_bus_reads() {
    let mut m = machine();
    m.write(0x5804, 0x83);
    m.write(0x5807, 42);
    m.write(0x4123, 0x5A);
    assert_eq!(m.palette(), m.read(0x5804));
    assert_eq!(m.beeper_period(), m.read(0x5807));
    let mut cpu = Cpu::new();
    cpu.reset(&mut m);
    cpu.p |= 0x04;
    m.run_frame(&mut cpu);
    let shown = m.fb()[0x123];
    assert_eq!(shown, m.read(0x4123), "display shows the fb plane with no sprites on");
}
