//! .vst save states: full machine + CPU serialization. The cartridge banks
//! ride along in the image, so a .vst restores a resumable machine with no
//! companion ROM needed.

use vintage::assembler::assemble;
use vintage::cpu::{Bus, Cpu};
use vintage::machine::Machine;

/// Map one bank's segments into a full 8K image.
fn image(segments: &[(u16, Vec<u8>)]) -> [u8; 0x2000] {
    let mut img = [0u8; 0x2000];
    for &(addr, ref bytes) in segments {
        let at = addr as usize - 0xE000;
        img[at..at + bytes.len()].copy_from_slice(bytes);
    }
    img
}

/// Counter program: bumps $20 on every pass, forever.
const COUNTER: &str = "
        .org $E100
entry:  inc $20
        jmp entry

        .org $FFFC
        .word entry
";

#[test]
fn save_then_restore_resumes_to_identical_continuation() {
    let bin = assemble(COUNTER).unwrap();
    let mut m = Machine::new(image(&bin.segments));
    let mut cpu = Cpu::new();
    cpu.reset(&mut m);
    // Warm up, then freeze. Both machines must share this exact past.
    for _ in 0..2 {
        m.run_frame(&mut cpu);
    }
    let snap = m.save_state(&cpu);
    let frozen = m.read(0x0020);
    let frames = m.read(0x5802);

    // Side A: five frames of divergence.
    for _ in 0..5 {
        m.run_frame(&mut cpu);
    }
    let count_a = m.read(0x0020);
    let frame_a = m.read(0x5802);
    let cycle_a = cpu.cycles;

    // Side B: rebuild from the snapshot and run the same five frames.
    let mut mb = Machine::new([0; 0x2000]);
    let mut cb = Cpu::new();
    mb.restore_state(&mut cb, &snap).unwrap();
    for _ in 0..5 {
        mb.run_frame(&mut cb);
    }
    assert_eq!(mb.read(0x0020), count_a, "same continuation, same count");
    assert_eq!(mb.read(0x5802), frame_a);
    assert_eq!(cb.cycles, cycle_a, "cycle-exact continuation");
    assert!(count_a > frozen, "the frozen state still advances");
    assert_eq!(frame_a, frames + 5);
}
#[test]
fn snapshot_captures_registers_and_io() {
    let mut m = Machine::with_banks(vec![[0xAA; 0x2000], [0xBB; 0x2000]]);
    m.key(b'Q');
    m.write(0x5804, 0x81);
    m.write(0x5806, 1);
    m.write(0x5807, 90);
    m.write(0x5808, 100);
    m.write(0x5809, 50);
    m.write(0x580B, 0x12);
    m.write(0x5810, 0x02);
    m.write(0x4000, 0xA5);
    let mut cpu = Cpu::new();
    cpu.reset(&mut m);
    let snap = m.save_state(&cpu);
    let old = (cpu.a, cpu.x, cpu.y, cpu.s, cpu.p, cpu.pc, cpu.cycles);

    let mut m2 = Machine::new([0x11; 0x2000]);
    let mut c2 = Cpu::new();
    m2.restore_state(&mut c2, &snap).unwrap();
    assert_eq!(m2.read(0x5804), 0x81, "palette");
    assert_eq!(m2.read(0x5806), 1, "bank register");
    assert_eq!(m2.read(0xE000), 0xBB, "bank 1 still visible");
    assert_eq!(m2.read(0x5807), 90, "beeper");
    assert_eq!(m2.read(0x5808), 100, "spr0 x");
    assert_eq!(m2.read(0x5809), 50, "spr0 y");
    assert_eq!(m2.read(0x580A), 0x00, "spr0 pat lo");
    assert_eq!(m2.read(0x580B), 0x12, "spr0 pat hi");
    assert_eq!(m2.read(0x5810), 0x02, "sprite ctrl");
    assert_eq!(m2.read(0x5800), b'Q', "pending key survives");
    assert_eq!(m2.fb()[0], 0xA5, "fb survives");
    assert_eq!(c2.pc, old.5, "cpu pc");
    assert_eq!(c2.cycles, old.6, "cpu cycles");
}

#[test]
fn bad_state_files_are_rejected() {
    let mut m = Machine::new([0xEA; 0x2000]);
    let mut cpu = Cpu::new();
    cpu.reset(&mut m);
    let snap = m.save_state(&cpu);

    let mut bad = snap.clone();
    bad[2] = b'X';
    assert!(mb_restore_fails(&bad));

    // every truncation point of the payload must fail
    for cut in 3..snap.len() {
        assert!(mb_restore_fails(&snap[..cut]), "truncation at {cut} accepted");
    }

    // plus one byte short is not enough either... trailing junk is rejected
    let mut junk = snap.clone();
    junk.push(0);
    assert!(mb_restore_fails(&junk), "trailing byte rejected");
}

fn mb_restore_fails(data: &[u8]) -> bool {
    let mut m = Machine::new([0; 0x2000]);
    let mut cpu = Cpu::new();
    cpu.reset(&mut m);
    m.restore_state(&mut cpu, data).is_err()
}

#[test]
fn image_header_layout() {
    let mut m = Machine::with_banks(vec![[0x11; 0x2000], [0x22; 0x2000]]);
    m.write(0x0000, 0x77);
    m.write(0x6000, 0x66);
    let mut cpu = Cpu::new();
    cpu.a = 1;
    cpu.x = 2;
    cpu.y = 3;
    cpu.s = 0xFD;
    cpu.p = 0x24;
    cpu.pc = 0xE123;
    cpu.cycles = 0x0102_0304_0506_0708;
    let d = m.save_state(&cpu);
    assert_eq!(d.len(), 55_334 + 8192 * 2);
    assert_eq!(&d[0..3], b"V1S");
    assert_eq!(&d[3..8], &[1, 2, 3, 0xFD, 0x24]);
    assert_eq!(&d[8..10], &0xE123u16.to_le_bytes());
    assert_eq!(&d[10..18], &0x0102_0304_0506_0708u64.to_le_bytes());
    assert_eq!(d[18], 0x77);
    assert_eq!(d[18 + 0x5800], 0x66);
    assert_eq!(&d[55_314..55_316], &2u16.to_le_bytes());
    assert_eq!(d[55_316], 0x11);
    assert_eq!(d[55_316 + 8192], 0x22);
}

#[test]
fn restore_redraws_without_touching_io() {
    // Sprite 0 enabled with its pattern over $5800 (key latch) and $5805
    // (RANDOM): redrawing the display after a restore must not consume the
    // key or step the LFSR.
    let mut m = Machine::new([0xEA; 0x2000]);
    m.key(b'Q');
    m.write(0x580A, 0x00);
    m.write(0x580B, 0x58);
    m.write(0x5810, 0x01);
    let cpu = Cpu::new();
    let snap = m.save_state(&cpu);

    let mut m2 = Machine::new([0; 0x2000]);
    let mut c2 = Cpu::new();
    m2.restore_state(&mut c2, &snap).unwrap();
    assert_eq!(m2.save_state(&c2), snap, "saving again gives the same image");
    assert_eq!(m2.read(0x5800), b'Q', "key latch survives the redraw");
    let mut fresh = Machine::new([0xEA; 0x2000]);
    assert_eq!(m2.read(0x5805), fresh.read(0x5805), "LFSR not stepped by the redraw");
}

#[test]
fn distinct_lfsr_states_stay_distinct() {
    let m = Machine::new([0xEA; 0x2000]);
    let cpu = Cpu::new();
    let snap = m.save_state(&cpu);
    let at = snap.len() - 5;
    let mut s1 = snap.clone();
    s1[at] = 0x01;
    s1[at + 1] = 0x00;
    let mut s2 = snap.clone();
    s2[at] = 0x5A;
    s2[at + 1] = 0x00;
    let (mut m1, mut c1) = (Machine::new([0; 0x2000]), Cpu::new());
    let (mut m2, mut c2) = (Machine::new([0; 0x2000]), Cpu::new());
    m1.restore_state(&mut c1, &s1).unwrap();
    m2.restore_state(&mut c2, &s2).unwrap();
    m1.read(0x5805);
    m2.read(0x5805);
    assert_ne!(m1.save_state(&c1), m2.save_state(&c2));
}

#[test]
fn restore_is_pixel_identical() {
    let mut rom = [0xEA; 0x2000];
    rom[0x1000] = 0xFF; // pattern row 0 at $F000
    rom[0x1007] = 0x81; // pattern row 7
    rom[0x1FFC] = 0x00;
    rom[0x1FFD] = 0xE0;
    let mut m = Machine::new(rom);
    m.write(0x4000 + 5 * 32, 0x0F);
    m.write(0x5808, 3);
    m.write(0x5809, 5);
    m.write(0x580A, 0x00);
    m.write(0x580B, 0xF0);
    m.write(0x5810, 0x01);
    let mut cpu = Cpu::new();
    cpu.reset(&mut m);
    cpu.p |= 0x04;
    m.run_frame(&mut cpu);
    let snap = m.save_state(&cpu);

    let mut m2 = Machine::new([0; 0x2000]);
    let mut c2 = Cpu::new();
    m2.restore_state(&mut c2, &snap).unwrap();
    assert_eq!(m2.fb()[..], m.fb()[..]);
    assert_eq!(m2.fb()[5 * 32], 0x0F ^ 0x1F);
}
